use vstd::prelude::*;
use crate::memory_constants::{
    ALT_CHAR_OFF, ALT_CHAR_ON, ALT_CHAR_STATUS, ALT_ZP_OFF, ALT_ZP_ON, ALT_ZP_STATUS, EIGHTY_COLUMNS_OFF,
    EIGHTY_COLUMNS_ON, EIGHTY_COLUMNS_STATUS, EIGHTY_STORE_OFF, EIGHTY_STORE_ON, EIGHTY_STORE_STATUS, HIRES_OFF,
    HIRES_ON, HIRES_STATUS, MIXED_OFF, MIXED_ON, MIXED_STATUS, PAGE_2_OFF, PAGE_2_ON, PAGE_2_STATUS,
    READ_AUX_MEM_OFF, READ_AUX_MEM_ON, READ_AUX_MEM_STATUS, SLOT_C3_OFF, SLOT_C3_ON, SLOT_C3_STATUS, TEXT_OFF,
    TEXT_ON, TEXT_STATUS, WRITE_AUX_MEM_OFF, WRITE_AUX_MEM_ON, WRITE_AUX_MEM_STATUS,
};

verus! {

/// A soft switch as the debugger shows it: its name, the addresses that turn
/// it on and off, and the address where its status is read (bit 7).
pub struct SoftSwitch {
    pub name: String,
    pub on: u16,
    pub off: u16,
    status: u16,
}

impl SoftSwitch {
    pub closed spec fn status_address(&self) -> u16 {
        self.status
    }

    /// Its name, the address that turns it on, the one that turns it off, and
    /// its status address.
    pub closed spec fn model(&self) -> (Seq<char>, u16, u16, u16) {
        (self.name@, self.on, self.off, self.status)
    }

    fn new(name: &str, on: u16, off: u16, status: u16) -> (r: SoftSwitch)
        ensures
            r.model() == (name@, on, off, status),
    {
        SoftSwitch { name: name.to_string(), on, off, status }
    }

    /// Whether the switch is on in `memory`: bit 7 of its status byte.
    pub fn is_set(&self, memory: &Vec<u8>) -> (r: bool)
        requires
            self.status_address() < memory@.len(),
        ensures
            r == (memory@[self.status_address() as int] >= 0x80),
    {
        memory[self.status as usize] >= 0x80
    }

    /// Turn the switch off if it is on, on if it is off: its status byte
    /// becomes 0 or 0x80, and nothing else in `memory` changes.
    pub fn flip(&self, memory: &mut Vec<u8>)
        requires
            self.status_address() < old(memory)@.len(),
        ensures
            final(memory)@ == old(memory)@.update(
                self.status_address() as int,
                if old(memory)@[self.status_address() as int] >= 0x80 { 0u8 } else { 0x80u8 },
            ),
    {
        let new_status: u8 = if self.is_set(memory) {
            0
        } else {
            0x80
        };
        memory.set(self.status as usize, new_status);
    }
}

/// Flipping a switch turns what `is_set` says of it to its opposite.
pub proof fn lemma_flip_toggles(sw: SoftSwitch, before: Seq<u8>, after: Seq<u8>)
    requires
        sw.status_address() < before.len(),
        after == before.update(
            sw.status_address() as int,
            if before[sw.status_address() as int] >= 0x80 { 0u8 } else { 0x80u8 },
        ),
    ensures
        (after[sw.status_address() as int] >= 0x80) == !(before[sw.status_address() as int] >= 0x80),
{
}

/// The soft switches that the debugger lists, in the order it lists them.
pub fn soft_switches() -> (r: Vec<SoftSwitch>)
    ensures
        r@.len() == 11,
        r@[0].model() == ("Text"@, TEXT_ON, TEXT_OFF, TEXT_STATUS),
        r@[1].model() == ("Mixed"@, MIXED_ON, MIXED_OFF, MIXED_STATUS),
        r@[2].model() == ("Page2"@, PAGE_2_ON, PAGE_2_OFF, PAGE_2_STATUS),
        r@[3].model() == ("Hi Res"@, HIRES_ON, HIRES_OFF, HIRES_STATUS),
        r@[4].model() == ("Store80"@, EIGHTY_STORE_ON, EIGHTY_STORE_OFF, EIGHTY_STORE_STATUS),
        r@[5].model() == ("Read aux"@, READ_AUX_MEM_ON, READ_AUX_MEM_OFF, READ_AUX_MEM_STATUS),
        r@[6].model() == ("Write aux"@, WRITE_AUX_MEM_ON, WRITE_AUX_MEM_OFF, WRITE_AUX_MEM_STATUS),
        r@[7].model() == ("Alt ZP"@, ALT_ZP_ON, ALT_ZP_OFF, ALT_ZP_STATUS),
        r@[8].model() == ("Slot C3"@, SLOT_C3_ON, SLOT_C3_OFF, SLOT_C3_STATUS),
        r@[9].model() == ("80 Columns"@, EIGHTY_COLUMNS_ON, EIGHTY_COLUMNS_OFF, EIGHTY_COLUMNS_STATUS),
        r@[10].model() == ("Alt Char"@, ALT_CHAR_ON, ALT_CHAR_OFF, ALT_CHAR_STATUS),
        forall|i: int| 0 <= i < 11 ==> #[trigger] r@[i].status_address() < 0x10000,
{
    let mut v: Vec<SoftSwitch> = Vec::new();
    v.push(SoftSwitch::new("Text", TEXT_ON, TEXT_OFF, TEXT_STATUS));
    v.push(SoftSwitch::new("Mixed", MIXED_ON, MIXED_OFF, MIXED_STATUS));
    v.push(SoftSwitch::new("Page2", PAGE_2_ON, PAGE_2_OFF, PAGE_2_STATUS));
    v.push(SoftSwitch::new("Hi Res", HIRES_ON, HIRES_OFF, HIRES_STATUS));
    v.push(SoftSwitch::new("Store80", EIGHTY_STORE_ON, EIGHTY_STORE_OFF, EIGHTY_STORE_STATUS));
    v.push(SoftSwitch::new("Read aux", READ_AUX_MEM_ON, READ_AUX_MEM_OFF, READ_AUX_MEM_STATUS));
    v.push(SoftSwitch::new("Write aux", WRITE_AUX_MEM_ON, WRITE_AUX_MEM_OFF, WRITE_AUX_MEM_STATUS));
    v.push(SoftSwitch::new("Alt ZP", ALT_ZP_ON, ALT_ZP_OFF, ALT_ZP_STATUS));
    v.push(SoftSwitch::new("Slot C3", SLOT_C3_ON, SLOT_C3_OFF, SLOT_C3_STATUS));
    v.push(SoftSwitch::new("80 Columns", EIGHTY_COLUMNS_ON, EIGHTY_COLUMNS_OFF, EIGHTY_COLUMNS_STATUS));
    v.push(SoftSwitch::new("Alt Char", ALT_CHAR_ON, ALT_CHAR_OFF, ALT_CHAR_STATUS));
    v
}

} // verus!
