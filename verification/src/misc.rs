use vstd::prelude::*;

verus! {

/// Value (0 or 1) of bit number `b` of `v`.
pub open spec fn bit_of(v: u8, b: u8) -> u8 {
    (v >> b) & 1
}

/// Return bit number `bit` (0 = least significant) of `v`.
pub fn bit(v: u8, n: u8) -> (r: u8)
    requires
        n < 8,
    ensures
        r == bit_of(v, n),
        r <= 1,
{
    let r = (v & (1u8 << n)) >> n;
    assert(r == (v >> n) & 1 && ((v >> n) & 1) <= 1) by (bit_vector)
        requires
            n < 8,
            r == (v & (1u8 << n)) >> n,
    ;
    r
}

/// A soft switch status byte is "on" when its high bit is set.
pub open spec fn switch_on(b: u8) -> bool {
    b >= 0x80
}

/// Whether the soft switch whose status lives at `address` is on in this memory image.
pub fn soft_switch(memory: &[u8], address: u16) -> (r: bool)
    requires
        (address as int) < memory@.len(),
    ensures
        r == switch_on(memory@[address as int]),
{
    let b = memory[address as usize];
    assert((b & 0x80 != 0) == (b >= 0x80)) by (bit_vector);
    (b & 0x80) != 0
}

} // verus!
