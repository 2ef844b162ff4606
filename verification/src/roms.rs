use vstd::prelude::*;

verus! {

/// The ROM set that the emulator boots with.
#[derive(Clone, Copy, Debug, PartialEq, Eq, Structural)]
pub enum RomType {
    Apple2Enhanced,
}

} // verus!
