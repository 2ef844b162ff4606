use vstd::prelude::*;
use crate::memory::{Apple2Memory, written_switch, display_switch, MAIN};
use crate::memory_constants::{AN3_OFF, AN3_ON, AN3_STATUS, BSR_BANK_2, EIGHTY_STORE_STATUS};
use crate::shared::Shared;

verus! {

/// No address below $C100 falls in $C3xx, where the motherboard takes
/// $C800-$CFFF back.
proof fn lemma_below_c100(a: u16)
    by (bit_vector)
    requires
        a < 0xc100,
    ensures
        (a & 0xc300u16) != 0xc300u16,
{
}

/// Reading back main memory ($0000-$BFFF): when a write to `a` and a read of
/// `a` go to the same bank (no auxiliary-memory switch tells them apart), the
/// write gives nothing back and the read gives the byte written.
pub proof fn lemma_ram_write_then_read(
    m0: Apple2Memory,
    m1: Apple2Memory,
    m2: Apple2Memory,
    sh0: Shared,
    sh1: Shared,
    sh2: Shared,
    a: u16,
    v: u8,
    c1: u64,
    t1: u64,
    c2: u64,
    t2: u64,
    r1: Option<u8>,
    r2: Option<u8>,
)
    requires
        a <= 0xbfff,
        a <= 0x1ff || m0.ram_bank(a, false) == m0.ram_bank(a, true),
        m1.accessed(m0, sh0, sh1, a, v, false, c1, t1, r1),
        m2.accessed(m1, sh1, sh2, a, 0, true, c2, t2, r2),
    ensures
        r1 is None,
        r2 == Some(v),
        sh2 == sh0,
{
    let pre0 = Apple2Memory { slot_c8_status: m0.c8_after(a), ..m0 };
    assert(m0.c8_after(a) == m0.slot_c8_status) by {
        lemma_below_c100(a);
    }
    assert(pre0 == m0);
    assert(m1.c8_after(a) == m1.slot_c8_status) by {
        lemma_below_c100(a);
    }
    if a <= 0x1ff {
        assert(m1.memories@[MAIN as int]@[crate::memory_constants::ALT_ZP_STATUS as int] == m0.memories@[MAIN
            as int]@[crate::memory_constants::ALT_ZP_STATUS as int]);
        assert(m1.zp_bank() == m0.zp_bank());
    } else {
        assert(m1.ram_bank(a, true) == m0.ram_bank(a, true));
    }
}

/// The soft switches set by a write to $C000-$C00F: the switch that the
/// address names ends up on or off as the address says, and reading its
/// status gives bit 7 set exactly when it is on.
pub proof fn lemma_written_switch_status(
    m0: Apple2Memory,
    m1: Apple2Memory,
    m2: Apple2Memory,
    sh0: Shared,
    sh1: Shared,
    sh2: Shared,
    a: u16,
    v: u8,
    c1: u64,
    t1: u64,
    c2: u64,
    t2: u64,
    r1: Option<u8>,
    r2: Option<u8>,
)
    requires
        0xc000 <= a <= 0xc00f,
        m1.accessed(m0, sh0, sh1, a, v, false, c1, t1, r1),
        m2.accessed(m1, sh1, sh2, if a == 0xc000 { EIGHTY_STORE_STATUS } else { written_switch(a).0 }, 0, true, c2, t2, r2),
    ensures
        r2 == Some(if a == 0xc000 { 0u8 } else if written_switch(a).1 { 0x80u8 } else { 0u8 }),
        m1.on(if a == 0xc000 { EIGHTY_STORE_STATUS } else { written_switch(a).0 }) == (a != 0xc000 && written_switch(a).1),
{
    let status = if a == 0xc000 { EIGHTY_STORE_STATUS } else { written_switch(a).0 };
    assert(0xc013 <= status <= 0xc01f && status != BSR_BANK_2 && status != 0xc019);
    assert(m1.c8_after(status) == m1.slot_c8_status) by {
        lemma_below_c100(status);
    }
    assert(!m1.disk_controller.accepts(status));
}

/// The display switches ($C050-$C057): an access, read or write, turns the
/// switch that the address names on or off, and reading its status gives bit
/// 7 set exactly when it is on.
pub proof fn lemma_display_switch_status(
    m0: Apple2Memory,
    m1: Apple2Memory,
    m2: Apple2Memory,
    sh0: Shared,
    sh1: Shared,
    sh2: Shared,
    a: u16,
    v: u8,
    read: bool,
    c1: u64,
    t1: u64,
    c2: u64,
    t2: u64,
    r1: Option<u8>,
    r2: Option<u8>,
)
    requires
        0xc050 <= a <= 0xc057,
        m1.accessed(m0, sh0, sh1, a, v, read, c1, t1, r1),
        m2.accessed(m1, sh1, sh2, display_switch(a).0, 0, true, c2, t2, r2),
    ensures
        r2 == Some(if display_switch(a).1 { 0x80u8 } else { 0u8 }),
        m1.on(display_switch(a).0) == display_switch(a).1,
{
    let status = display_switch(a).0;
    assert(0xc013 <= status <= 0xc01f && status != BSR_BANK_2 && status != 0xc019);
    assert(m1.c8_after(status) == m1.slot_c8_status) by {
        lemma_below_c100(status);
    }
    assert(!m1.disk_controller.accepts(status));
}

/// The language card's write protection: two reads in a row of odd
/// addresses of $C080-$C08F enable writing to it (from any state that the
/// card can be in: once two such reads were counted, writing is enabled).
pub proof fn lemma_two_odd_reads_enable_writing(
    m0: Apple2Memory,
    m1: Apple2Memory,
    m2: Apple2Memory,
    sh0: Shared,
    sh1: Shared,
    sh2: Shared,
    a1: u16,
    a2: u16,
    c1: u64,
    t1: u64,
    c2: u64,
    t2: u64,
    r1: Option<u8>,
    r2: Option<u8>,
)
    requires
        0xc080 <= a1 <= 0xc08f && a1 & 1 == 1,
        0xc080 <= a2 <= 0xc08f && a2 & 1 == 1,
        m0.prewrite >= 2 ==> m0.write_enabled,
        m1.accessed(m0, sh0, sh1, a1, 0, true, c1, t1, r1),
        m2.accessed(m1, sh1, sh2, a2, 0, true, c2, t2, r2),
    ensures
        m2.write_enabled,
        m2.prewrite >= 2,
{
    assert(m0.c8_after(a1) == m0.slot_c8_status) by {
        lemma_below_c100(a1);
    }
    assert(m1.c8_after(a2) == m1.slot_c8_status) by {
        lemma_below_c100(a2);
    }
}

/// The language card's write protection: an access, read or write, to an
/// even address of $C080-$C08F protects the card from writes, and a write
/// to the card is then not made.
pub proof fn lemma_even_access_protects(
    m0: Apple2Memory,
    m1: Apple2Memory,
    m2: Apple2Memory,
    sh0: Shared,
    sh1: Shared,
    sh2: Shared,
    a: u16,
    read: bool,
    b: u16,
    v: u8,
    c1: u64,
    t1: u64,
    c2: u64,
    t2: u64,
    r1: Option<u8>,
    r2: Option<u8>,
)
    requires
        0xc080 <= a <= 0xc08f && a & 1 == 0,
        b >= 0xd000,
        m1.accessed(m0, sh0, sh1, a, 0, read, c1, t1, r1),
        m2.accessed(m1, sh1, sh2, b, v, false, c2, t2, r2),
    ensures
        !m1.write_enabled,
        m2.high_ram == m1.high_ram,
        r2 is None,
{
    lemma_below_c100(a);
}

/// The language card's RAM ($D000-$FFFF): with reading and writing of the
/// card enabled, a write to `a` gives nothing back and a read of `a` then
/// gives the byte written.
pub proof fn lemma_card_write_then_read(
    m0: Apple2Memory,
    m1: Apple2Memory,
    m2: Apple2Memory,
    sh0: Shared,
    sh1: Shared,
    sh2: Shared,
    a: u16,
    v: u8,
    c1: u64,
    t1: u64,
    c2: u64,
    t2: u64,
    r1: Option<u8>,
    r2: Option<u8>,
)
    requires
        a >= 0xd000,
        m0.read_enabled,
        m0.write_enabled,
        m1.accessed(m0, sh0, sh1, a, v, false, c1, t1, r1),
        m2.accessed(m1, sh1, sh2, a, 0, true, c2, t2, r2),
    ensures
        r1 is None,
        r2 == Some(v),
{
    assert(m1.zp_bank() == m0.zp_bank());
}

proof fn lemma_bit_5(b: u8)
    by (bit_vector)
    ensures
        (b | 0x20) & 0x20 == 0x20,
        (b | 0x20) & 0xdf == b & 0xdf,
        (b & 0xdf) & 0x20 == 0,
        (b & 0xdf) & 0xdf == b & 0xdf,
{
}

/// Annunciator 3 (the double high resolution switch): any access to $C05E
/// sets bit 5 of its status byte, any access to $C05F clears it, and the
/// other bits of the status byte stay as they were.
pub proof fn lemma_annunciator_3(
    m0: Apple2Memory,
    m1: Apple2Memory,
    sh0: Shared,
    sh1: Shared,
    a: u16,
    v: u8,
    read: bool,
    c: u64,
    t: u64,
    r: Option<u8>,
)
    requires
        a == AN3_ON || a == AN3_OFF,
        m1.accessed(m0, sh0, sh1, a, v, read, c, t, r),
    ensures
        m1.byte(MAIN as int, AN3_STATUS as int) & 0x20 == (if a == AN3_ON { 0x20u8 } else { 0u8 }),
        m1.byte(MAIN as int, AN3_STATUS as int) & 0xdf == m0.byte(MAIN as int, AN3_STATUS as int) & 0xdf,
        sh1 == sh0,
{
    lemma_below_c100(a);
    let pre = Apple2Memory { slot_c8_status: m0.c8_after(a), ..m0 };
    assert(pre == m0);
    let b = m0.byte(MAIN as int, AN3_STATUS as int);
    let after = crate::memory::an3_after(b, a);
    let mid = choose|mid: Apple2Memory|
        #[trigger] mid.stored(pre, MAIN as int, AN3_STATUS as int, after) && m1.f1_f2_updated(mid, a);
    assert(m1.memories == mid.memories);
    assert(m1.byte(MAIN as int, AN3_STATUS as int) == after);
    lemma_bit_5(b);
}

} // verus!
