use vstd::prelude::*;

verus! {

/// Which of the two 64K banks the memory view of the debugger shows.
#[derive(Clone, Copy, Debug, PartialEq, Eq, Structural)]
pub enum MemoryType {
    Main,
    Aux,
}

impl MemoryType {
    /// The name under which the bank is offered in the debugger.
    pub fn name(&self) -> (r: &'static str)
        ensures
            r@ == (match self {
                MemoryType::Main => "Main"@,
                MemoryType::Aux => "Aux"@,
            }),
    {
        match self {
            MemoryType::Main => "Main",
            MemoryType::Aux => "Aux",
        }
    }
}

impl Default for MemoryType {
    fn default() -> (r: MemoryType)
        ensures
            r == MemoryType::Main,
    {
        MemoryType::Main
    }
}

/// The banks that the memory view can show, in the order it offers them.
pub fn all_memory_types() -> (r: [MemoryType; 2])
    ensures
        r@ == seq![MemoryType::Main, MemoryType::Aux],
{
    [MemoryType::Main, MemoryType::Aux]
}

/// What the memory view of the debugger shows: a copy of a bank, the
/// address typed in (hexadecimal), and which bank it is.
pub struct MemoryViewState {
    pub memory: Vec<u8>,
    pub location: String,
    pub memory_type: MemoryType,
}

/// The tabs of the main window.
#[derive(Clone, Copy, Debug, PartialEq, Eq, Structural)]
pub enum TabId {
    DisksTab,
    NibblesTab,
    DriveTab,
    DebugTab,
}

impl Default for TabId {
    fn default() -> (r: TabId)
        ensures
            r == TabId::DisksTab,
    {
        TabId::DisksTab
    }
}

} // verus!
