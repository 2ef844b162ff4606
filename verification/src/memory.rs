use vstd::prelude::*;
use crate::disk::disk_controller::DiskController;
use crate::disk::disk_info::DiskInfo;
use crate::memory_constants::{ALT_CHAR_STATUS, ALT_ZP_STATUS, AN3_OFF, AN3_ON, AN3_STATUS, BSR_BANK_2, EIGHTY_COLUMNS_STATUS, EIGHTY_STORE_STATUS, HIRES_STATUS, INTERNAL_CX_STATUS, IOU_DIS_OFF, IOU_DIS_ON, MIXED_STATUS, PAGE_2_STATUS, READ_AUX_MEM_STATUS, SLOT_C3_STATUS, TEXT_STATUS, WRITE_AUX_MEM_STATUS};
use crate::messages::{SetMemoryMsg, ToUi};
use crate::shared::{Shared, SpeakerEvent};
use crate::smartport::SmartPort;

verus! {

/// Number of bytes of each bank of memory.
pub const MEMORY_SIZE: usize = 0x10000;

/// The main memory bank.
pub const MAIN: usize = 0;

/// The auxiliary memory bank.
pub const AUX: usize = 1;

/// The language card's RAM of one memory bank: two banks for $D000-$DFFF,
/// one for $E000-$FFFF.
pub struct HighRam {
    pub banks: [[u8; 0x1000]; 2],
    pub high_ram: [u8; 0x2000],
}

impl HighRam {
    pub fn default() -> (r: HighRam)
        ensures
            forall|b: int, k: int| 0 <= b < 2 && 0 <= k < 0x1000 ==> #[trigger] r.banks@[b]@[k] == 0,
            forall|k: int| 0 <= k < 0x2000 ==> #[trigger] r.high_ram@[k] == 0,
    {
        HighRam { banks: [[0; 0x1000]; 2], high_ram: [0; 0x2000] }
    }
}

/// A hard drive, known by its disk.
pub struct HardDrive {
    pub disk_info: Option<DiskInfo>,
}

impl HardDrive {
    /// The hard drive whose file is at `path`, if any.
    pub fn new(path: Option<String>) -> (r: HardDrive)
        ensures
            r.disk_info is Some <==> path is Some,
            path matches Some(p) ==> r.disk_info->0.path@ == p@ && r.disk_info->0.name is None,
    {
        match path {
            Some(s) => HardDrive { disk_info: Some(DiskInfo::n(s.as_str())) },
            None => HardDrive { disk_info: None },
        }
    }
}

/// The memory of an Apple //e: main and auxiliary banks, the language card,
/// the soft switches, and the cards in the slots.
pub struct Apple2Memory {
    pub memories: [[u8; 0x10000]; 2],
    /// Extra text page
    pub extra_text_memory: [u8; 0x400],
    /// Language card: odd reads in a row, 2 of them enable writing
    pub prewrite: u8,
    /// Language card: $D000 reads bank 1 (else bank 2)
    pub bank1: bool,
    /// Language card: reads go to its RAM
    pub read_enabled: bool,
    /// Language card: writes go to its RAM
    pub write_enabled: bool,
    /// Double hires graphics
    pub dhg_previous_address: u16,
    pub dhg_iou_disabled: bool,
    pub dhg_rgb_mode: u8,
    pub dhg_rgb_flags: u8,
    /// Language card RAM of the main (0) and auxiliary (1) banks
    pub high_ram: [HighRam; 2],
    /// $C800-$CFFF is given to the motherboard's ROM (it cannot be read)
    pub slot_c8_status: bool,
    pub disk_controller: DiskController,
    pub smartport: SmartPort,
    pub vbl: u8,
    /// Messages for the user interface, oldest first
    pub messages: Vec<ToUi>,
    /// A user interface listens to the messages
    pub has_sender: bool,
}

/// The value stored in memory at `i` before the ROMs are loaded, from $0000
/// to $BFFF: alternating pairs of $00 and $FF, and the text page filled with
/// the low nibble of its addresses.
pub open spec fn initial_ram(i: int) -> u8 {
    if 0x400 <= i < 0xc00 {
        (i % 16) as u8
    } else if (i + 2) / 2 % 2 == 1 {
        0xff
    } else {
        0
    }
}

impl Apple2Memory {
    /// The soft switch whose status lives at `a` is on.
    pub open spec fn on(&self, a: u16) -> bool {
        self.memories@[MAIN as int]@[a as int] >= 0x80
    }

    /// The byte at `a` of bank `bank`.
    pub open spec fn byte(&self, bank: int, a: int) -> u8 {
        self.memories@[bank]@[a]
    }

    /// `self` is `old` with byte `a` of bank `bank` set to `v`.
    pub open spec fn stored(&self, old: Apple2Memory, bank: int, a: int, v: u8) -> bool {
        &&& self.memories@[bank]@ == old.memories@[bank]@.update(a, v)
        &&& self.memories@[1 - bank] == old.memories@[1 - bank]
        &&& *self == (Apple2Memory { memories: self.memories, ..old })
    }

    /// A memory whose banks are all 0, with the language card reading the
    /// ROM, bank 1 selected, the disk controller in slot 6, and the hard
    /// drives given shared.
    pub fn new(hard_drives: [Option<DiskInfo>; 2], has_sender: bool, shared: &mut Shared) -> (r: Apple2Memory)
        ensures
            forall|b: int, k: int| 0 <= b < 2 && 0 <= k < 0x10000 ==> #[trigger] r.memories@[b]@[k] == 0,
            r.prewrite == 0 && r.bank1 && !r.read_enabled && !r.write_enabled,
            r.dhg_previous_address == 0 && !r.dhg_iou_disabled && r.dhg_rgb_mode == 0 && r.dhg_rgb_flags == 0,
            !r.slot_c8_status,
            r.vbl == 0,
            r.messages@.len() == 0,
            r.has_sender == has_sender,
            r.disk_controller.slot == 6,
            r.disk_controller.drives[0].disk is None && r.disk_controller.drives[1].disk is None,
            forall|h: int, b: int, k: int|
                0 <= h < 2 && 0 <= b < 2 && 0 <= k < 0x1000 ==> #[trigger] r.high_ram@[h].banks@[b]@[k] == 0,
            forall|h: int, k: int| 0 <= h < 2 && 0 <= k < 0x2000 ==> #[trigger] r.high_ram@[h].high_ram@[k] == 0,
            forall|i: int|
                0 <= i < 2 ==> (#[trigger] final(shared).hard_drives[i].disk_info is Some <==> hard_drives[i] is Some),
            forall|i: int|
                0 <= i < 2 ==> (#[trigger] hard_drives[i] matches Some(d) ==> final(shared).hard_drives[i].disk_info->0.same_as(d)),
            final(shared).hard_drives[0].block_number == old(shared).hard_drives[0].block_number,
            final(shared).hard_drives[1].block_number == old(shared).hard_drives[1].block_number,
            *final(shared) == (Shared { hard_drives: final(shared).hard_drives, ..*old(shared) }),
    {
        let h0 = match &hard_drives[0] {
            Some(d) => Some(d.copy()),
            None => None,
        };
        let h1 = match &hard_drives[1] {
            Some(d) => Some(d.copy()),
            None => None,
        };
        shared.set_hard_drive(0, h0);
        shared.set_hard_drive(1, h1);
        Apple2Memory {
            memories: [[0; 0x10000]; 2],
            extra_text_memory: [0; 0x400],
            prewrite: 0,
            bank1: true,
            read_enabled: false,
            write_enabled: false,
            dhg_previous_address: 0,
            dhg_iou_disabled: false,
            dhg_rgb_mode: 0,
            dhg_rgb_flags: 0,
            high_ram: [HighRam::default(), HighRam::default()],
            slot_c8_status: false,
            disk_controller: DiskController::new(6),
            smartport: SmartPort::default(),
            vbl: 0,
            messages: Vec::new(),
            has_sender,
        }
    }

    /// On a reboot, the RGB mode is reset.
    pub fn on_reboot(&mut self)
        ensures
            *final(self) == (Apple2Memory { dhg_rgb_mode: 0, dhg_rgb_flags: 0, ..*old(self) }),
    {
        self.dhg_rgb_mode = 0;
        self.dhg_rgb_flags = 0;
    }

    /// A copy of the auxiliary bank.
    pub fn aux_memory(&self) -> (r: Vec<u8>)
        ensures
            r@ == self.memories@[AUX as int]@,
    {
        let mut result: Vec<u8> = Vec::new();
        let mut i: usize = 0;
        while i < MEMORY_SIZE
            invariant
                i <= MEMORY_SIZE,
                result@ == self.memories@[AUX as int]@.take(i as int),
            decreases MEMORY_SIZE - i,
        {
            result.push(self.memories[AUX][i]);
            i += 1;
            assert(result@ =~= self.memories@[AUX as int]@.take(i as int));
        }
        assert(self.memories@[AUX as int]@.take(0x10000) =~= self.memories@[AUX as int]@);
        result
    }

    /// 0x80 for on, 0 for off.
    pub fn status(&self, value: bool) -> (r: u8)
        ensures
            r == (if value { 0x80u8 } else { 0u8 }),
    {
        if value {
            0x80
        } else {
            0
        }
    }

    /// Store `value` at `address` of the main bank, with no other effect.
    pub fn set_force(&mut self, address: u16, value: u8)
        ensures
            final(self).stored(*old(self), MAIN as int, address as int, value),
    {
        self.memories[MAIN][address as usize] = value;
    }
}

/// `mem` with `bytes` placed from `a` on.
pub open spec fn placed(mem: Seq<u8>, a: int, bytes: Seq<u8>) -> Seq<u8> {
    Seq::new(mem.len(), |j: int| if a <= j < a + bytes.len() { bytes[j - a] } else { mem[j] })
}

impl Apple2Memory {
    /// Store the bytes of `msg` in the main bank from its address on, with no
    /// other effect (as the user interface asks it of the machine).
    pub fn set_memory(&mut self, msg: &SetMemoryMsg)
        requires
            msg.address + msg.bytes@.len() <= 0xffff,
        ensures
            final(self).stored_all(*old(self), MAIN as int, placed(
                old(self).memories@[MAIN as int]@,
                msg.address as int,
                msg.bytes@,
            )),
    {
        let ghost main = self.memories@[MAIN as int]@;
        let mut a: u16 = msg.address;
        let mut i: usize = 0;
        assert(main =~= placed(main, msg.address as int, msg.bytes@.take(0)));
        while i < msg.bytes.len()
            invariant
                i <= msg.bytes@.len(),
                a == msg.address + i,
                msg.address + msg.bytes@.len() <= 0xffff,
                main == old(self).memories@[MAIN as int]@,
                self.stored_all(*old(self), MAIN as int, placed(main, msg.address as int, msg.bytes@.take(i as int))),
            decreases msg.bytes@.len() - i,
        {
            let ghost before = *self;
            self.set_force(a, msg.bytes[i]);
            assert(placed(main, msg.address as int, msg.bytes@.take(i + 1)) =~= placed(
                main,
                msg.address as int,
                msg.bytes@.take(i as int),
            ).update(a as int, msg.bytes@[i as int]));
            a += 1;
            i += 1;
        }
        assert(msg.bytes@.take(msg.bytes@.len() as int) =~= msg.bytes@);
    }
}

/// `a + b`, wrapping at $FFFF.
pub open spec fn wrap16(a: u16, b: u16) -> int {
    if a + b > 0xffff {
        a + b - 0x10000
    } else {
        a + b
    }
}

/// The memory and the count of bytes written after the first `k` bytes of
/// `buffer` were loaded at `address`: the first `skip` are skipped, at most
/// `max` are written (0: no limit), addresses wrap at $FFFF.
pub open spec fn loaded(mem: Seq<u8>, buffer: Seq<u8>, address: u16, skip: u16, max: u16, k: int) -> (Seq<u8>, int)
    decreases k,
{
    if k <= 0 {
        (mem, 0)
    } else {
        let (m, written) = loaded(mem, buffer, address, skip, max, k - 1);
        let i = k - 1;
        if (i as u16) >= skip && (max == 0 || written < max) {
            (m.update(wrap16(address, i as u16), buffer[i]), written + 1)
        } else {
            (m, written)
        }
    }
}

proof fn lemma_loaded_len(mem: Seq<u8>, buffer: Seq<u8>, address: u16, skip: u16, max: u16, k: int)
    requires
        mem.len() == 0x10000,
    ensures
        loaded(mem, buffer, address, skip, max, k).0.len() == mem.len(),
        0 <= loaded(mem, buffer, address, skip, max, k).1,
        max != 0 ==> loaded(mem, buffer, address, skip, max, k).1 <= max,
        k >= 0 ==> loaded(mem, buffer, address, skip, max, k).1 <= k,
    decreases k,
{
    if k > 0 {
        lemma_loaded_len(mem, buffer, address, skip, max, k - 1);
    }
}

proof fn lemma_loaded_grows(mem: Seq<u8>, buffer: Seq<u8>, address: u16, skip: u16, max: u16, a: int, b: int)
    requires
        a <= b,
    ensures
        loaded(mem, buffer, address, skip, max, a).1 <= loaded(mem, buffer, address, skip, max, b).1,
    decreases b - a,
{
    if a < b {
        lemma_loaded_grows(mem, buffer, address, skip, max, a, b - 1);
    }
}

impl Apple2Memory {
    /// Copy `buffer` into memory at `address` (of the main bank if `main`,
    /// else of the auxiliary one), skipping its first `skip` bytes and
    /// writing at most `max` of them (0: all).
    pub fn load_bytes(&mut self, buffer: &[u8], address: u16, skip: u16, max: u16, main: bool)
        requires
            max != 0 || loaded(
                old(self).memories@[if main { 0int } else { 1int }]@,
                buffer@,
                address,
                skip,
                max,
                buffer@.len() as int,
            ).1 <= 0xffff,
        ensures
            ({
                let bank: int = if main { 0 } else { 1 };
                final(self).stored_all(*old(self), bank, loaded(
                    old(self).memories@[bank]@,
                    buffer@,
                    address,
                    skip,
                    max,
                    buffer@.len() as int,
                ).0)
            }),
    {
        let index: usize = if main { 0 } else { 1 };
        let ghost bank = index as int;
        let ghost mem0 = old(self).memories@[bank]@;
        let mut written: u16 = 0;
        let mut i: usize = 0;
        while i < buffer.len()
            invariant
                i <= buffer@.len(),
                index < 2,
                bank == index,
                mem0 == old(self).memories@[bank]@,
                max != 0 || loaded(mem0, buffer@, address, skip, max, buffer@.len() as int).1 <= 0xffff,
                self.memories@[bank]@ == loaded(mem0, buffer@, address, skip, max, i as int).0,
                written == loaded(mem0, buffer@, address, skip, max, i as int).1,
                self.memories@[1 - bank] == old(self).memories@[1 - bank],
                *self == (Apple2Memory { memories: self.memories, ..*old(self) }),
            decreases buffer@.len() - i,
        {
            proof {
                lemma_loaded_len(mem0, buffer@, address, skip, max, i as int);
                lemma_loaded_len(mem0, buffer@, address, skip, max, i + 1);
                lemma_loaded_grows(mem0, buffer@, address, skip, max, i + 1, buffer@.len() as int);
            }
            let i16: u16 = #[verifier::truncate] (i as u16);
            if i16 >= skip && (max == 0 || written < max) {
                let a = address.wrapping_add(i16) as usize;
                assert(a == wrap16(address, i16));
                self.memories[index][a] = buffer[i];
                written += 1;
            }
            i += 1;
        }
    }

    /// `self` is `old` with bank `bank` replaced by `content`.
    pub open spec fn stored_all(&self, old: Apple2Memory, bank: int, content: Seq<u8>) -> bool {
        &&& self.memories@[bank]@ == content
        &&& self.memories@[1 - bank] == old.memories@[1 - bank]
        &&& *self == (Apple2Memory { memories: self.memories, ..old })
    }
}

/// The soft switch that a write to `address` ($C001-$C00F) turns on or off:
/// the address of its status, and whether it is turned on.
pub open spec fn written_switch(address: u16) -> (u16, bool) {
    if address == 0xc001 {
        (EIGHTY_STORE_STATUS, true)
    } else if address == 0xc002 {
        (READ_AUX_MEM_STATUS, false)
    } else if address == 0xc003 {
        (READ_AUX_MEM_STATUS, true)
    } else if address == 0xc004 {
        (WRITE_AUX_MEM_STATUS, false)
    } else if address == 0xc005 {
        (WRITE_AUX_MEM_STATUS, true)
    } else if address == 0xc006 {
        (INTERNAL_CX_STATUS, false)
    } else if address == 0xc007 {
        (INTERNAL_CX_STATUS, true)
    } else if address == 0xc008 {
        (ALT_ZP_STATUS, false)
    } else if address == 0xc009 {
        (ALT_ZP_STATUS, true)
    } else if address == 0xc00a {
        (SLOT_C3_STATUS, false)
    } else if address == 0xc00b {
        (SLOT_C3_STATUS, true)
    } else if address == 0xc00c {
        (EIGHTY_COLUMNS_STATUS, false)
    } else if address == 0xc00d {
        (EIGHTY_COLUMNS_STATUS, true)
    } else if address == 0xc00e {
        (ALT_CHAR_STATUS, false)
    } else {
        (ALT_CHAR_STATUS, true)
    }
}

/// The display switch that an access to `address` ($C050-$C057) turns on or
/// off: the address of its status, and whether it is turned on.
pub open spec fn display_switch(address: u16) -> (u16, bool) {
    if address == 0xc050 {
        (TEXT_STATUS, false)
    } else if address == 0xc051 {
        (TEXT_STATUS, true)
    } else if address == 0xc052 {
        (MIXED_STATUS, false)
    } else if address == 0xc053 {
        (MIXED_STATUS, true)
    } else if address == 0xc054 {
        (PAGE_2_STATUS, false)
    } else if address == 0xc055 {
        (PAGE_2_STATUS, true)
    } else if address == 0xc056 {
        (HIRES_STATUS, false)
    } else {
        (HIRES_STATUS, true)
    }
}

/// The annunciator 3 status byte after an access to `address`: bit 5 is set
/// by $C05E, cleared by $C05F.
pub open spec fn an3_after(b: u8, address: u16) -> u8 {
    if address == AN3_ON {
        (b | 0x20) as u8
    } else {
        (b & 0xdf) as u8
    }
}

/// The language card's read enable for an access to the digit `d` of $C08x.
pub open spec fn lc_reads(d: u16) -> bool {
    d == 0 || d == 4 || d == 8 || d == 0xc || d == 3 || d == 7 || d == 0xb || d == 0xf
}

impl Apple2Memory {
    /// What `slot_c8_status` becomes on an access to `address`: an access to
    /// $CFFF gives $C800-$CFFF back to the slots, one to $C3xx (with the slot
    /// 3 ROM switched off) gives it to the motherboard.
    pub open spec fn c8_after(&self, address: u16) -> bool {
        if address == 0xcfff {
            false
        } else if (address & 0xc300) == 0xc300 && !self.on(SLOT_C3_STATUS) {
            true
        } else {
            self.slot_c8_status
        }
    }

    /// The bank of the zero page and stack, and of the language card.
    pub open spec fn zp_bank(&self) -> int {
        if self.on(ALT_ZP_STATUS) { AUX as int } else { MAIN as int }
    }

    /// The bank read (or written) at `address` in $0200-$BFFF.
    pub open spec fn ram_bank(&self, address: u16, read: bool) -> int {
        let is_text = 0x400 <= address <= 0x7ff;
        let is_graphics = 0x2000 <= address <= 0x3fff;
        let page2 = self.on(PAGE_2_STATUS);
        let eighty = self.on(EIGHTY_STORE_STATUS);
        let aux = if read { self.on(READ_AUX_MEM_STATUS) } else { self.on(WRITE_AUX_MEM_STATUS) };
        if is_text {
            if eighty {
                if page2 { AUX as int } else { MAIN as int }
            } else if aux {
                AUX as int
            } else {
                MAIN as int
            }
        } else if eighty && self.on(HIRES_STATUS) && (is_text || is_graphics) {
            if page2 { AUX as int } else { MAIN as int }
        } else if aux {
            AUX as int
        } else {
            MAIN as int
        }
    }

    /// The bank read at `address` in $C100-$CFFE: the slots' ROMs (held in
    /// the auxiliary bank) or the motherboard's (main bank).
    pub open spec fn slot_rom_bank(&self, address: u16) -> int {
        let slot = ((address & 0xff00) >> 8u16) & 0xf;
        let cx = self.on(INTERNAL_CX_STATUS);
        let c3 = self.on(SLOT_C3_STATUS);
        if !cx && !c3 {
            if slot >= 8 && self.slot_c8_status {
                MAIN as int
            } else if slot == 3 {
                MAIN as int
            } else {
                AUX as int
            }
        } else if !cx && c3 {
            if slot >= 8 && self.slot_c8_status { MAIN as int } else { AUX as int }
        } else {
            MAIN as int
        }
    }

    /// The language card after an access to `address` ($C080-$C08F): two odd
    /// reads in a row enable writing, an even access disables it; the digit
    /// selects the bank and whether reads go to the card.
    pub open spec fn lc_switched(&self, address: u16, read: bool) -> Apple2Memory {
        let odd = address & 1 == 1;
        let counts = odd && read && self.prewrite < 3;
        let prewrite1 = if counts { (self.prewrite + 1) as u8 } else { self.prewrite };
        let we1 = if counts && prewrite1 >= 2 { true } else { self.write_enabled };
        let digit = address & 0xf;
        Apple2Memory {
            prewrite: if !odd || !read { 0 } else { prewrite1 },
            write_enabled: if !odd { false } else { we1 },
            bank1: digit > 7,
            read_enabled: lc_reads(digit),
            ..*self
        }
    }

    /// The word at `address` and `address + 1` of the zero page.
    pub open spec fn zp_word(&self, address: u16) -> u16 {
        (self.byte(self.zp_bank(), address as int) as u16 | ((self.byte(self.zp_bank(), address + 1) as u16)
            << 8u16)) as u16
    }

    /// `self` is `old` with the soft switch whose status is at `status` set
    /// on or off.
    pub open spec fn switched(&self, old: Apple2Memory, status: u16, on: bool) -> bool {
        self.stored(old, MAIN as int, status as int, if on { 0x80 } else { 0 })
    }

    /// `self` is `old` after the F1/F2 register saw an access to `address`.
    pub open spec fn f1_f2_updated(&self, old: Apple2Memory, address: u16) -> bool {
        if address == 0xc05f && old.dhg_previous_address == 0xc05e {
            let flags = (((old.dhg_rgb_flags << 1u8) & 3) | (if old.on(EIGHTY_COLUMNS_STATUS) { 0u8 } else { 1u8 })) as u8;
            &&& self.messages@ == old.messages@.push(ToUi::RgbModeUpdate(flags))
            &&& *self == (Apple2Memory {
                dhg_rgb_flags: flags,
                dhg_rgb_mode: flags,
                dhg_previous_address: address,
                messages: self.messages,
                ..old
            })
        } else {
            *self == (Apple2Memory { dhg_previous_address: address, ..old })
        }
    }

    fn switch(&mut self, status: u16, on: bool)
        ensures
            final(self).switched(*old(self), status, on),
    {
        if on {
            self.memories[MAIN][status as usize] = 0x80;
        } else {
            self.memories[MAIN][status as usize] = 0;
        }
    }

    fn is_set(&self, status: u16) -> (r: bool)
        ensures
            r == self.on(status),
    {
        let b = self.memories[MAIN][status as usize];
        assert((b & 0x80 != 0) == (b >= 0x80)) by (bit_vector);
        (b & 0x80) != 0
    }

    /// Update the F1/F2 switches (US patent 4631692): two accesses to $C05E
    /// then $C05F shift into the RGB mode whether 80 columns are off.
    pub fn update_f1_f2(&mut self, address: u16)
        ensures
            final(self).f1_f2_updated(*old(self), address),
    {
        if address == 0xc05f && self.dhg_previous_address == 0xc05e {
            let eighty = self.is_set(EIGHTY_COLUMNS_STATUS);
            self.dhg_rgb_flags = (self.dhg_rgb_flags << 1u8) & 3;
            self.dhg_rgb_flags = self.dhg_rgb_flags | if eighty { 0 } else { 1 };
            self.dhg_rgb_mode = self.dhg_rgb_flags;
            self.messages.push(ToUi::RgbModeUpdate(self.dhg_rgb_mode));
        }
        self.dhg_previous_address = address;
    }

    /// The word at `address` and `address + 1` of the zero page.
    pub fn word(&self, address: u16) -> (r: u16)
        requires
            address < 0x1ff,
        ensures
            r == self.zp_word(address),
    {
        let bank: usize = if self.is_set(ALT_ZP_STATUS) { AUX } else { MAIN };
        self.memories[bank][address as usize] as u16 | ((self.memories[bank][address as usize + 1] as u16) << 8u16)
    }

    fn language_card(&mut self, address: u16, read: bool)
        ensures
            *final(self) == old(self).lc_switched(address, read),
    {
        let odd = (address & 1) == 1;
        let even = !odd;
        if odd && read && self.prewrite < 3 {
            self.prewrite += 1;
            if self.prewrite >= 2 {
                self.write_enabled = true;
            }
        }
        if even {
            self.write_enabled = false;
        }
        if even || !read {
            self.prewrite = 0;
        }
        let digit = address & 0xf;
        self.bank1 = digit > 7;
        self.read_enabled = digit == 0 || digit == 4 || digit == 8 || digit == 0xc || digit == 3
            || digit == 7 || digit == 0xb || digit == 0xf;
    }
}

impl Apple2Memory {
    /// What an access to `address` requires: the disk controller's slot is
    /// one of 16, and the slot's card can take the access.
    pub open spec fn access_ok(&self, address: u16, shared: Shared) -> bool {
        let pre = Apple2Memory { slot_c8_status: self.c8_after(address), ..*self };
        &&& self.disk_controller.slot < 16
        &&& (address == 0xc0f8 ==> pre.smartport.block_ok(pre.zp_word(0x46), shared)
            && pre.smartport.block_content_index <= 512)
        &&& (self.dispatched_to_slot(address) && self.disk_controller.accepts(address)
            ==> self.disk_controller.access_ok(address))
    }

    /// `address` is handled by none of the fixed addresses: the cards in the
    /// slots may answer it.
    pub open spec fn dispatched_to_slot(&self, address: u16) -> bool {
        &&& address > 0xbfff
        &&& address != BSR_BANK_2
        &&& address != 0xc019
        &&& !(0xc030 <= address <= 0xc03f)
        &&& !(0xc080 <= address <= 0xc08f)
        &&& !(0xc001 <= address <= 0xc00f)
        &&& address != 0xc0f8
        &&& !(0xc100 <= address <= 0xcffe)
        &&& address < 0xd000
        &&& address != 0xc000
        &&& address != 0xc010
        &&& !(0xc050 <= address <= 0xc057)
        &&& address != AN3_ON
        &&& address != AN3_OFF
        &&& address != IOU_DIS_ON
        &&& address != IOU_DIS_OFF
    }

    /// `self` and `sh1` are `old` and `sh0` after an access to `address`
    /// (a read if `read`, else a write of `value`) that gave `r` (a write gives
    /// none); `cycle` and `timestamp` are when it happens.
    pub open spec fn accessed(
        &self,
        old: Apple2Memory,
        sh0: Shared,
        sh1: Shared,
        address: u16,
        value: u8,
        read: bool,
        cycle: u64,
        timestamp: u64,
        r: Option<u8>,
    ) -> bool {
        let pre = Apple2Memory { slot_c8_status: old.c8_after(address), ..old };
        let a = address as int;
        // what reading an address that nothing else answers gives
        let plain = if read { Some(pre.byte(MAIN as int, a)) } else { None::<u8> };
        if address <= 0x1ff {
            &&& sh1 == sh0
            &&& if read {
                r == Some(pre.byte(pre.zp_bank(), a)) && *self == pre
            } else {
                r is None && self.stored(pre, pre.zp_bank(), a, value)
            }
        } else if address <= 0xbfff {
            &&& sh1 == sh0
            &&& if read {
                r == Some(pre.byte(pre.ram_bank(address, true), a)) && *self == pre
            } else {
                r is None && self.stored(pre, pre.ram_bank(address, false), a, value)
            }
        } else if address == BSR_BANK_2 {
            sh1 == sh0 && *self == pre && r == (if read { Some(if pre.bank1 { 0u8 } else { 0x80u8 }) } else { None })
        } else if address == 0xc019 {
            &&& sh1 == sh0
            &&& r == (if read { Some(pre.vbl) } else { None })
            &&& *self == (Apple2Memory { vbl: if pre.vbl >= 0x80 { 0 } else { 0x80 }, ..pre })
        } else if 0xc030 <= address <= 0xc03f {
            &&& sh1.speaker_events@ == sh0.speaker_events@.push(SpeakerEvent { cycle, timestamp })
            &&& sh1 == (Shared { speaker_events: sh1.speaker_events, ..sh0 })
            &&& *self == pre
            &&& r == plain
        } else if 0xc080 <= address <= 0xc08f {
            sh1 == sh0 && *self == pre.lc_switched(address, read) && r == plain
        } else if 0xc001 <= address <= 0xc00f && !read {
            sh1 == sh0 && r == plain && self.switched(pre, written_switch(address).0, written_switch(address).1)
        } else if address == 0xc0f8 {
            self.smartport_read(pre, sh0, sh1, read, r)
        } else if 0xc100 <= address <= 0xcffe {
            &&& sh1 == sh0
            &&& *self == pre
            &&& r == (if read { Some(pre.byte(pre.slot_rom_bank(address), a)) } else { None })
        } else if address >= 0xd000 {
            self.high_accessed(pre, address, value, read, r) && sh1 == sh0
        } else if address == 0xc000 {
            &&& sh1 == sh0
            &&& if read {
                r == plain && *self == pre
            } else {
                r == plain && self.switched(pre, EIGHTY_STORE_STATUS, false)
            }
        } else if address == 0xc010 {
            let v = (pre.byte(MAIN as int, 0xc000) & 0x7f) as u8;
            &&& sh1 == sh0
            &&& if pre.has_sender {
                &&& r == (if read { Some(v) } else { None })
                &&& self.memories@[MAIN as int]@ == pre.memories@[MAIN as int]@.update(0xc000, v)
                &&& self.memories@[AUX as int] == pre.memories@[AUX as int]
                &&& self.messages@ == pre.messages@.push(ToUi::KeyboardStrobe)
                &&& *self == (Apple2Memory { memories: self.memories, messages: self.messages, ..pre })
            } else {
                r == plain && *self == pre
            }
        } else if 0xc050 <= address <= 0xc057 {
            sh1 == sh0 && r == plain && self.switched(pre, display_switch(address).0, display_switch(address).1)
        } else if address == AN3_ON || address == AN3_OFF {
            &&& sh1 == sh0
            &&& r == (if read { Some(0u8) } else { None })
            &&& exists|mid: Apple2Memory|
                #[trigger] mid.stored(pre, MAIN as int, AN3_STATUS as int, an3_after(pre.byte(MAIN as int, AN3_STATUS as int), address))
                    && self.f1_f2_updated(mid, address)
        } else if address == IOU_DIS_ON {
            &&& sh1 == sh0
            &&& if read {
                r == Some(if pre.dhg_iou_disabled { 0x80u8 } else { 0u8 }) && *self == pre
            } else {
                r == plain && *self == (Apple2Memory { dhg_iou_disabled: true, ..pre })
            }
        } else if address == IOU_DIS_OFF {
            &&& sh1 == sh0
            &&& r == plain
            &&& if read { *self == pre } else { *self == (Apple2Memory { dhg_iou_disabled: false, ..pre }) }
        } else if pre.disk_controller.accepts(address) {
            exists|v: u8|
                #![trigger self.disk_controller.accessed(pre.disk_controller, sh0, sh1, address, value, v)]
                {
                    &&& r == (if read { Some(v) } else { None })
                    &&& self.disk_controller.accessed(pre.disk_controller, sh0, sh1, address, value, v)
                    &&& *self == (Apple2Memory { disk_controller: self.disk_controller, ..pre })
                }
        } else {
            sh1 == sh0 && *self == pre && r == plain
        }
    }

    /// The smartport's port ($C0F8) was accessed: it gives the next byte of
    /// the block whose number is at $46-$47, or nothing if that fails.
    pub open spec fn smartport_read(&self, pre: Apple2Memory, sh0: Shared, sh1: Shared, read: bool, r: Option<u8>) -> bool {
        let block = pre.zp_word(0x46);
        let load = pre.smartport.last_block_read != Some(block);
        let fails = load && sh0.hard_drives[0].disk_info is Some && pre.smartport.file_content@.len() == 0;
        if fails {
            &&& r == (if read { Some(pre.byte(MAIN as int, 0xc0f8)) } else { None::<u8> })
            &&& *self == pre
            &&& sh1 == sh0
        } else {
            let loads = load && sh0.hard_drives[0].disk_info is Some;
            let content = if loads {
                pre.smartport.file_content@.subrange(block * 512, block * 512 + 512)
            } else {
                pre.smartport.block_content@
            };
            let index = if loads || pre.smartport.block_content_index >= 512 {
                0
            } else {
                pre.smartport.block_content_index as int
            };
            &&& r == (if read { Some(content[index]) } else { None })
            &&& self.smartport.block_content@ == content
            &&& self.smartport.block_content_index == index + 1
            &&& self.smartport.file_content == pre.smartport.file_content
            &&& self.smartport.last_block_read == (if loads { Some(block) } else { pre.smartport.last_block_read })
            &&& *self == (Apple2Memory { smartport: self.smartport, ..pre })
            &&& (loads ==> sh1.hard_drives[0].block_number == block
                && sh1.hard_drives[0].disk_info == sh0.hard_drives[0].disk_info
                && sh1.hard_drives[1] == sh0.hard_drives[1]
                && sh1 == (Shared { hard_drives: sh1.hard_drives, ..sh0 }))
            &&& (!loads ==> sh1 == sh0)
        }
    }

    /// The language card's space ($D000-$FFFF) was accessed.
    pub open spec fn high_accessed(&self, pre: Apple2Memory, address: u16, value: u8, read: bool, r: Option<u8>) -> bool {
        let zp = pre.zp_bank();
        let bank: int = if pre.bank1 { 0 } else { 1 };
        let a = address as int;
        if read {
            &&& *self == pre
            &&& r == Some(if !pre.read_enabled {
                pre.byte(MAIN as int, a)
            } else if a <= 0xdfff {
                pre.high_ram@[zp].banks@[bank]@[a - 0xd000]
            } else {
                pre.high_ram@[zp].high_ram@[a - 0xe000]
            })
        } else if pre.write_enabled {
            &&& r is None
            &&& self.high_ram@[1 - zp] == pre.high_ram@[1 - zp]
            &&& if a <= 0xdfff {
                &&& self.high_ram@[zp].banks@[bank]@ == pre.high_ram@[zp].banks@[bank]@.update(a - 0xd000, value)
                &&& self.high_ram@[zp].banks@[1 - bank] == pre.high_ram@[zp].banks@[1 - bank]
                &&& self.high_ram@[zp].high_ram == pre.high_ram@[zp].high_ram
            } else {
                &&& self.high_ram@[zp].high_ram@ == pre.high_ram@[zp].high_ram@.update(a - 0xe000, value)
                &&& self.high_ram@[zp].banks == pre.high_ram@[zp].banks
            }
            &&& *self == (Apple2Memory { high_ram: self.high_ram, ..pre })
        } else {
            r is None && *self == pre
        }
    }
}

impl Apple2Memory {
    fn access_high(&mut self, address: u16, value: u8, read: bool) -> (r: Option<u8>)
        requires
            address >= 0xd000,
        ensures
            final(self).high_accessed(*old(self), address, value, read, r),
    {
        let index: usize = if self.is_set(ALT_ZP_STATUS) { AUX } else { MAIN };
        let bank: usize = if self.bank1 { 0 } else { 1 };
        if read {
            if self.read_enabled {
                if address <= 0xdfff {
                    Some(self.high_ram[index].banks[bank][address as usize - 0xd000])
                } else {
                    Some(self.high_ram[index].high_ram[address as usize - 0xe000])
                }
            } else {
                Some(self.memories[MAIN][address as usize])
            }
        } else {
            if self.write_enabled {
                if address <= 0xdfff {
                    self.high_ram[index].banks[bank][address as usize - 0xd000] = value;
                } else {
                    self.high_ram[index].high_ram[address as usize - 0xe000] = value;
                }
            }
            None
        }
    }

    fn access_smartport(&mut self, read: bool, shared: &mut Shared) -> (r: Option<u8>)
        requires
            old(self).smartport.block_ok(old(self).zp_word(0x46), *old(shared)),
            old(self).smartport.block_content_index <= 512,
        ensures
            final(self).smartport_read(*old(self), *old(shared), *final(shared), read, r),
    {
        let block_number = self.word(0x46);
        match self.smartport.next_byte(block_number, shared) {
            Ok(byte) => if read { Some(byte) } else { None },
            Err(_) => {
                if read {
                    Some(self.memories[MAIN][0xc0f8])
                } else {
                    None
                }
            },
        }
    }

    /// What reading an address that nothing else answers gives (none for a
    /// write).
    fn plain(&self, address: u16, read: bool) -> (r: Option<u8>)
        ensures
            r == (if read { Some(self.byte(MAIN as int, address as int)) } else { None::<u8> }),
    {
        if read {
            Some(self.memories[MAIN][address as usize])
        } else {
            None
        }
    }

    /// Read (`read`) or write `value` at `address`, with the effects that the
    /// soft switches and the cards give to some addresses: a read gives the
    /// byte read, a write gives nothing. `cycle` and `timestamp` (in
    /// microseconds) date a click of the speaker.
    #[verifier::rlimit(100)]
    #[verifier::spinoff_prover]
    pub fn get_or_set(
        &mut self,
        address: u16,
        value: u8,
        read: bool,
        shared: &mut Shared,
        cycle: u64,
        timestamp: u64,
    ) -> (r: Option<u8>)
        requires
            old(self).access_ok(address, *old(shared)),
        ensures
            final(self).accessed(*old(self), *old(shared), *final(shared), address, value, read, cycle, timestamp, r),
            read ==> r is Some,
            !read ==> r is None,
    {
        // INTCXROM: $C800-$CFFF stays with the motherboard's ROM from an access
        // to $C3xx (slot 3 ROM off) until an access to $CFFF (Sather 5-28).
        if address == 0xcfff {
            self.slot_c8_status = false;
        } else if (address & 0xc300) == 0xc300 && !self.is_set(SLOT_C3_STATUS) {
            self.slot_c8_status = true;
        }
        if address <= 0xbfff {
            return self.access_ram(address, value, read);
        }
        if address == BSR_BANK_2 {
            return if read { Some(if self.bank1 { 0 } else { 0x80 }) } else { None };
        }
        if address == 0xc019 {
            // vertical blank: on every other read
            let v = self.vbl;
            if self.vbl >= 0x80 {
                self.vbl = 0;
            } else {
                self.vbl = 0x80;
            }
            return if read { Some(v) } else { None };
        }
        if 0xc030 <= address && address <= 0xc03f {
            shared.add_speaker_event(SpeakerEvent { cycle, timestamp });
            return self.plain(address, read);
        }
        if 0xc080 <= address && address <= 0xc08f {
            // Language card (Sather, "Understanding the Apple IIe", table 5.5)
            self.language_card(address, read);
            return self.plain(address, read);
        }
        if 0xc001 <= address && address <= 0xc00f && !read {
            self.write_switch(address);
            return None;
        }
        if address == 0xc0f8 {
            return self.access_smartport(read, shared);
        }
        if 0xc100 <= address && address <= 0xcffe {
            return self.access_slot_rom(address, read);
        }
        if address >= 0xd000 {
            return self.access_high(address, value, read);
        }
        if address == 0xc000 {
            if read {
                return Some(self.memories[MAIN][address as usize]);
            } else {
                self.switch(EIGHTY_STORE_STATUS, false);
                return None;
            }
        }
        if address == 0xc010 {
            // clear the keyboard strobe
            let v = self.memories[MAIN][0xc000] & 0x7f;
            if self.has_sender {
                self.messages.push(ToUi::KeyboardStrobe);
                self.memories[MAIN][0xc000] = v;
                return if read { Some(v) } else { None };
            }
            return self.plain(address, read);
        }
        if 0xc050 <= address && address <= 0xc057 {
            self.display_switch(address);
            return self.plain(address, read);
        }
        if address == AN3_ON || address == AN3_OFF {
            self.annunciator_3(address);
            return if read { Some(0) } else { None };
        }
        if address == IOU_DIS_ON {
            if read {
                return Some(if self.dhg_iou_disabled { 0x80 } else { 0 });
            } else {
                self.dhg_iou_disabled = true;
                return None;
            }
        }
        if address == IOU_DIS_OFF {
            if !read {
                self.dhg_iou_disabled = false;
            }
            return self.plain(address, read);
        }
        if self.disk_controller.accept(address) {
            let v = self.disk_controller.get_or_set(shared, read, address, value);
            return if read { Some(v) } else { None };
        }
        self.plain(address, read)
    }

    fn access_ram(&mut self, address: u16, value: u8, read: bool) -> (r: Option<u8>)
        requires
            address <= 0xbfff,
        ensures
            address <= 0x1ff ==> if read {
                r == Some(old(self).byte(old(self).zp_bank(), address as int)) && *final(self) == *old(self)
            } else {
                r is None && final(self).stored(*old(self), old(self).zp_bank(), address as int, value)
            },
            address > 0x1ff ==> if read {
                r == Some(old(self).byte(old(self).ram_bank(address, true), address as int)) && *final(self) == *old(self)
            } else {
                r is None && final(self).stored(*old(self), old(self).ram_bank(address, false), address as int, value)
            },
    {
        if address <= 0x1ff {
            let index: usize = if self.is_set(ALT_ZP_STATUS) { AUX } else { MAIN };
            if read {
                return Some(self.memories[index][address as usize]);
            } else {
                self.memories[index][address as usize] = value;
                return None;
            }
        }
        let is_text = 0x400 <= address && address <= 0x7ff;
        let is_graphics = 0x2000 <= address && address <= 0x3fff;
        let is_hires_set = self.is_set(HIRES_STATUS);
        let is_eighty_set = self.is_set(EIGHTY_STORE_STATUS);
        let is_page2 = self.is_set(PAGE_2_STATUS);
        let is_read_aux = self.is_set(READ_AUX_MEM_STATUS);
        let is_write_aux = self.is_set(WRITE_AUX_MEM_STATUS);
        // Sather 5-25: with 80STORE set, RAMRD and RAMWRT do not affect the
        // text page, nor the hires page if HIRES is set: PAGE2 selects.
        let index = if is_text {
            if is_eighty_set {
                if is_page2 { AUX } else { MAIN }
            } else if (read && is_read_aux) || (!read && is_write_aux) {
                AUX
            } else {
                MAIN
            }
        } else if is_eighty_set && is_hires_set && (is_text || is_graphics) {
            if is_page2 { AUX } else { MAIN }
        } else if (!read && is_write_aux) || (read && is_read_aux) {
            AUX
        } else {
            MAIN
        };
        if read {
            Some(self.memories[index][address as usize])
        } else {
            self.memories[index][address as usize] = value;
            None
        }
    }

    fn write_switch(&mut self, address: u16)
        requires
            0xc001 <= address <= 0xc00f,
        ensures
            final(self).switched(*old(self), written_switch(address).0, written_switch(address).1),
    {
        if address == 0xc001 {
            self.switch(EIGHTY_STORE_STATUS, true);
        } else if address == 0xc002 {
            self.switch(READ_AUX_MEM_STATUS, false);
        } else if address == 0xc003 {
            self.switch(READ_AUX_MEM_STATUS, true);
        } else if address == 0xc004 {
            self.switch(WRITE_AUX_MEM_STATUS, false);
        } else if address == 0xc005 {
            self.switch(WRITE_AUX_MEM_STATUS, true);
        } else if address == 0xc006 {
            self.switch(INTERNAL_CX_STATUS, false);
        } else if address == 0xc007 {
            self.switch(INTERNAL_CX_STATUS, true);
        } else if address == 0xc008 {
            self.switch(ALT_ZP_STATUS, false);
        } else if address == 0xc009 {
            self.switch(ALT_ZP_STATUS, true);
        } else if address == 0xc00a {
            self.switch(SLOT_C3_STATUS, false);
        } else if address == 0xc00b {
            self.switch(SLOT_C3_STATUS, true);
        } else if address == 0xc00c {
            self.switch(EIGHTY_COLUMNS_STATUS, false);
        } else if address == 0xc00d {
            self.switch(EIGHTY_COLUMNS_STATUS, true);
        } else if address == 0xc00e {
            self.switch(ALT_CHAR_STATUS, false);
        } else {
            self.switch(ALT_CHAR_STATUS, true);
        }
    }

    fn display_switch(&mut self, address: u16)
        requires
            0xc050 <= address <= 0xc057,
        ensures
            final(self).switched(*old(self), display_switch(address).0, display_switch(address).1),
    {
        if address == 0xc050 {
            self.switch(TEXT_STATUS, false);
        } else if address == 0xc051 {
            self.switch(TEXT_STATUS, true);
        } else if address == 0xc052 {
            self.switch(MIXED_STATUS, false);
        } else if address == 0xc053 {
            self.switch(MIXED_STATUS, true);
        } else if address == 0xc054 {
            self.switch(PAGE_2_STATUS, false);
        } else if address == 0xc055 {
            self.switch(PAGE_2_STATUS, true);
        } else if address == 0xc056 {
            self.switch(HIRES_STATUS, false);
        } else {
            self.switch(HIRES_STATUS, true);
        }
    }

    fn access_slot_rom(&self, address: u16, read: bool) -> (r: Option<u8>)
        ensures
            r == (if read { Some(self.byte(self.slot_rom_bank(address), address as int)) } else { None::<u8> }),
    {
        // Sather 5-28: internal ROM is in the main bank, slot ROMs in the
        // auxiliary one.
        let cx = self.is_set(INTERNAL_CX_STATUS);
        let c3 = self.is_set(SLOT_C3_STATUS);
        let slot = ((address & 0xff00) >> 8u16) & 0xf;
        let index = if !cx && !c3 {
            if slot >= 8 && self.slot_c8_status {
                MAIN
            } else if slot == 3 {
                MAIN
            } else {
                AUX
            }
        } else if !cx && c3 {
            if slot >= 8 && self.slot_c8_status { MAIN } else { AUX }
        } else {
            MAIN
        };
        let v = self.memories[index][address as usize];
        if read {
            Some(v)
        } else {
            None
        }
    }

    fn annunciator_3(&mut self, address: u16)
        requires
            address == AN3_ON || address == AN3_OFF,
        ensures
            exists|mid: Apple2Memory|
                #[trigger] mid.stored(*old(self), MAIN as int, AN3_STATUS as int, an3_after(old(self).byte(MAIN as int, AN3_STATUS as int), address))
                    && final(self).f1_f2_updated(mid, address),
    {
        let an3 = self.memories[MAIN][AN3_STATUS as usize];
        if address == AN3_ON {
            self.memories[MAIN][AN3_STATUS as usize] = an3 | 0b0010_0000;
        } else {
            self.memories[MAIN][AN3_STATUS as usize] = an3 & 0b1101_1111;
        }
        let ghost mid = *self;
        self.update_f1_f2(address);
        proof {
            assert(an3 == old(self).byte(MAIN as int, AN3_STATUS as int));
            assert(mid.memories@[MAIN as int]@ =~= old(self).memories@[MAIN as int]@.update(
                AN3_STATUS as int,
                an3_after(old(self).byte(MAIN as int, AN3_STATUS as int), address),
            ));
            assert(mid.stored(
                *old(self),
                MAIN as int,
                AN3_STATUS as int,
                an3_after(old(self).byte(MAIN as int, AN3_STATUS as int), address),
            ));
            assert(self.f1_f2_updated(mid, address));
        }
    }
}

impl Apple2Memory {
    /// Whether an access to `address` can be made (see `access_ok`).
    pub fn can_access(&self, address: u16, shared: &Shared) -> (r: bool)
        ensures
            r == self.access_ok(address, *shared),
    {
        if self.disk_controller.slot >= 16 {
            return false;
        }
        if address == 0xc0f8 {
            let bank: usize = if self.is_set(ALT_ZP_STATUS) { AUX } else { MAIN };
            let block = self.memories[bank][0x46] as u16 | ((self.memories[bank][0x47] as u16) << 8u16);
            proof {
                let pre = Apple2Memory { slot_c8_status: self.c8_after(address), ..*self };
                assert(block == pre.zp_word(0x46));
            }
            if self.smartport.block_content_index > 512 {
                return false;
            }
            if shared.hard_drives[0].disk_info.is_some() && self.smartport.file_content.len() > 0 {
                return (block as usize) * 512 + 512 <= self.smartport.file_content.len();
            }
            return true;
        }
        let to_slot = address > 0xbfff && address != BSR_BANK_2 && address != 0xc019 && !(0xc030 <= address
            && address <= 0xc03f) && !(0xc080 <= address && address <= 0xc08f) && !(0xc001 <= address && address
            <= 0xc00f) && !(0xc100 <= address && address <= 0xcffe) && address < 0xd000 && address != 0xc000
            && address != 0xc010 && !(0xc050 <= address && address <= 0xc057) && address != AN3_ON && address
            != AN3_OFF && address != IOU_DIS_ON && address != IOU_DIS_OFF;
        if to_slot && self.disk_controller.accept(address) {
            self.disk_controller.can_access(address)
        } else {
            true
        }
    }

    /// The byte at `address`, with the effects of reading it.
    pub fn get(&mut self, address: u16, shared: &mut Shared, cycle: u64, timestamp: u64) -> (r: u8)
        requires
            old(self).access_ok(address, *old(shared)),
        ensures
            final(self).accessed(*old(self), *old(shared), *final(shared), address, 0, true, cycle, timestamp, Some(r)),
    {
        match self.get_or_set(address, 0, true, shared, cycle, timestamp) {
            Some(v) => v,
            None => 0,
        }
    }

    /// Write `value` at `address`, with the effects of writing it.
    pub fn set(&mut self, address: u16, value: u8, shared: &mut Shared, cycle: u64, timestamp: u64)
        requires
            old(self).access_ok(address, *old(shared)),
        ensures
            final(self).accessed(*old(self), *old(shared), *final(shared), address, value, false, cycle, timestamp, None),
    {
        self.get_or_set(address, value, false, shared, cycle, timestamp);
    }

    /// Put a disk in a drive: a hard drive is only known by its disk; a floppy
    /// drive gets the disk read from the file (`None`: the file could not be read).
    pub fn load_disk_from_file(
        &mut self,
        shared: &mut Shared,
        is_hard_drive: bool,
        drive_number: usize,
        disk_info: DiskInfo,
        loaded: Option<Result<crate::disk::disk::Disk, String>>,
    )
        requires
            drive_number < 2,
        ensures
            is_hard_drive ==> {
                &&& final(shared).hard_drives[drive_number as int].disk_info is Some
                &&& final(shared).hard_drives[drive_number as int].disk_info->0.same_as(disk_info)
                &&& final(shared).hard_drives[drive_number as int].block_number == old(shared).hard_drives[drive_number as int].block_number
                &&& final(shared).hard_drives[1 - drive_number] == old(shared).hard_drives[1 - drive_number]
                &&& *final(shared) == (Shared { hard_drives: final(shared).hard_drives, ..*old(shared) })
                &&& final(self).messages@.len() == old(self).messages@.len() + 1
                &&& final(self).messages@.take(old(self).messages@.len() as int) == old(self).messages@
                &&& final(self).messages@.last() matches ToUi::HardDriveInserted(n, Some(d)) && n == drive_number && d.same_as(disk_info)
                &&& *final(self) == (Apple2Memory { messages: final(self).messages, ..*old(self) })
            },
            !is_hard_drive ==> *final(self) == (Apple2Memory { disk_controller: final(self).disk_controller, ..*old(self) }),
    {
        if is_hard_drive {
            shared.set_hard_drive(drive_number, Some(disk_info.copy()));
            self.messages.push(ToUi::HardDriveInserted(drive_number, Some(disk_info)));
            assert(self.messages@.take(old(self).messages@.len() as int) =~= old(self).messages@);
        } else {
            self.disk_controller.load_disk(shared, drive_number, disk_info, loaded);
        }
    }
}

/// The slot_c8_status of `m` once $C700 to `a - 1` were read in turn.
pub open spec fn c8_before(m: Apple2Memory, a: int) -> bool
    decreases a,
{
    if a <= 0xc700 {
        m.slot_c8_status
    } else {
        (Apple2Memory { slot_c8_status: c8_before(m, a - 1), ..m }).c8_after((a - 1) as u16)
    }
}

/// What reading `a` ($C700-$FFFF) gives when `m` is the memory before.
pub open spec fn rom_read(m: Apple2Memory, a: int) -> u8 {
    let pre = Apple2Memory { slot_c8_status: m.c8_after(a as u16), ..m };
    let zp = pre.zp_bank();
    let bank: int = if pre.bank1 { 0 } else { 1 };
    if a <= 0xcffe {
        pre.byte(pre.slot_rom_bank(a as u16), a)
    } else if a == 0xcfff || !pre.read_enabled {
        pre.byte(MAIN as int, a)
    } else if a <= 0xdfff {
        pre.high_ram@[zp].banks@[bank]@[a - 0xd000]
    } else {
        pre.high_ram@[zp].high_ram@[a - 0xe000]
    }
}

impl Apple2Memory {
    /// What the CPU sees of memory: the main bank to $C5FF, the disk
    /// controller's ROM at $C600-$C6FF, then what reading $C700-$FFFF gives.
    pub fn main_memory(&mut self, shared: &mut Shared, cycle: u64, timestamp: u64) -> (r: Vec<u8>)
        requires
            old(self).disk_controller.slot < 16,
        ensures
            r@.len() == 0x10000,
            forall|i: int| 0 <= i < 0xc600 ==> #[trigger] r@[i] == old(self).byte(MAIN as int, i),
            forall|i: int| 0xc600 <= i < 0xc700 ==> #[trigger] r@[i] == old(self).byte(AUX as int, i),
            forall|i: int|
                0xc700 <= i < 0x10000 ==> #[trigger] r@[i] == rom_read(
                    Apple2Memory { slot_c8_status: c8_before(*old(self), i), ..*old(self) },
                    i,
                ),
            *final(self) == (Apple2Memory { slot_c8_status: c8_before(*old(self), 0x10000), ..*old(self) }),
            *final(shared) == *old(shared),
    {
        let mut result: Vec<u8> = Vec::new();
        let mut i: usize = 0;
        while i <= 0xc5ff
            invariant
                i <= 0xc600,
                result@.len() == i,
                *self == *old(self),
                forall|k: int| 0 <= k < i ==> #[trigger] result@[k] == old(self).byte(MAIN as int, k),
            decreases 0xc600 - i,
        {
            result.push(self.memories[MAIN][i]);
            i += 1;
        }
        while i <= 0xc6ff
            invariant
                0xc600 <= i <= 0xc700,
                result@.len() == i,
                *self == *old(self),
                forall|k: int| 0 <= k < 0xc600 ==> #[trigger] result@[k] == old(self).byte(MAIN as int, k),
                forall|k: int| 0xc600 <= k < i ==> #[trigger] result@[k] == old(self).byte(AUX as int, k),
            decreases 0xc700 - i,
        {
            result.push(self.memories[AUX][i]);
            i += 1;
        }
        while i <= 0xffff
            invariant
                0xc700 <= i <= 0x10000,
                result@.len() == i,
                old(self).disk_controller.slot < 16,
                *self == (Apple2Memory { slot_c8_status: c8_before(*old(self), i as int), ..*old(self) }),
                *shared == *old(shared),
                forall|k: int| 0 <= k < 0xc600 ==> #[trigger] result@[k] == old(self).byte(MAIN as int, k),
                forall|k: int| 0xc600 <= k < 0xc700 ==> #[trigger] result@[k] == old(self).byte(AUX as int, k),
                forall|k: int|
                    0xc700 <= k < i ==> #[trigger] result@[k] == rom_read(
                        Apple2Memory { slot_c8_status: c8_before(*old(self), k), ..*old(self) },
                        k,
                    ),
            decreases 0x10000 - i,
        {
            let ghost before = *self;
            let v = self.get(i as u16, shared, cycle, timestamp);
            proof {
                assert(before.dispatched_to_slot(i as u16) ==> !before.disk_controller.accepts(i as u16));
                assert(v == rom_read(before, i as int));
                assert(c8_before(*old(self), i + 1) == before.c8_after(i as u16));
            }
            result.push(v);
            i += 1;
        }
        result
    }
}

/// Bank `bank` of memory before the ROMs are loaded in it, `m` being what
/// it held: $0000-$BFFF as `initial_ram` gives it (with $3F3-$3F4 set to
/// $FE $FF, and $4E of the main bank to $7F), and 1 at $C000, $C100, ...,
/// $C700 of the auxiliary bank.
pub open spec fn prepared_bank(m: Seq<u8>, bank: int) -> Seq<u8> {
    Seq::new(
        0x10000,
        |i: int|
            if i == 0x3f3 {
                0xfe
            } else if i == 0x3f4 {
                0xff
            } else if i == 0x4e && bank == 0 {
                0x7f
            } else if i < 0xc000 {
                initial_ram(i)
            } else if bank == 1 && i < 0xc800 && i % 0x100 == 0 {
                1
            } else {
                m[i]
            },
    )
}

impl Apple2Memory {
    /// Prepare memory and load the ROMs: the machine's `rom` at `rom_offset`
    /// of the main bank, the disk controller's at $C600 of the auxiliary one,
    /// and, when the drives are hidden and a hard drive is there, the
    /// SmartPort's at $C700 of the auxiliary one.
    pub fn load_roms(&mut self, rom: &[u8], rom_offset: u16, disk2_rom: &[u8], smartport_rom: &[u8], shared: &Shared)
        requires
            rom@.len() <= 0xffff,
        ensures
            final(self).memories@[MAIN as int]@ == loaded(
                prepared_bank(old(self).memories@[MAIN as int]@, 0),
                rom@,
                rom_offset,
                0,
                0,
                rom@.len() as int,
            ).0,
            ({
                let aux = loaded(prepared_bank(old(self).memories@[AUX as int]@, 1), disk2_rom@, 0xc600, 0, 0x100, disk2_rom@.len() as int).0;
                final(self).memories@[AUX as int]@ == if !shared.show_drives && shared.hard_drives[0].disk_info is Some {
                    loaded(aux, smartport_rom@, 0xc700, 0, 0x100, smartport_rom@.len() as int).0
                } else {
                    aux
                }
            }),
            *final(self) == (Apple2Memory { memories: final(self).memories, ..*old(self) }),
    {
        let mut i: usize = 0;
        while i < 0xc000
            invariant
                i <= 0xc000,
                forall|b: int, k: int| 0 <= b < 2 && 0 <= k < i ==> #[trigger] self.memories@[b]@[k] == (if 0x400 <= k < 0xc00 {
                    old(self).memories@[b]@[k]
                } else {
                    initial_ram(k)
                }),
                forall|b: int, k: int| 0 <= b < 2 && i <= k < 0x10000 ==> #[trigger] self.memories@[b]@[k] == old(self).memories@[b]@[k],
                *self == (Apple2Memory { memories: self.memories, ..*old(self) }),
            decreases 0xc000 - i,
        {
            let j: usize = i + 2;
            proof {
                assert((j >> 1usize) & 1 == (j / 2) % 2) by (bit_vector);
                assert((j >> 1usize) & 1 <= 1) by (bit_vector);
            }
            let v = (((j >> 1usize) & 1) * 0xff) as u8;
            if !(0x400 <= i && i < 0xc00) {
                self.memories[0][i] = v;
                self.memories[1][i] = v;
            }
            i += 1;
        }
        let mut i: usize = 0x400;
        while i < 0xc00
            invariant
                0x400 <= i <= 0xc00,
                forall|b: int, k: int| 0 <= b < 2 && 0 <= k < 0xc000 && !(i <= k < 0xc00) ==> #[trigger] self.memories@[b]@[k] == initial_ram(k),
                forall|b: int, k: int| 0 <= b < 2 && 0xc000 <= k < 0x10000 ==> #[trigger] self.memories@[b]@[k] == old(self).memories@[b]@[k],
                *self == (Apple2Memory { memories: self.memories, ..*old(self) }),
            decreases 0xc00 - i,
        {
            assert(i & 0xf == i % 16) by (bit_vector);
            let v = (i & 0xf) as u8;
            self.memories[0][i] = v;
            self.memories[1][i] = v;
            i += 1;
        }
        self.memories[0][0x3F3] = 0xFE;
        self.memories[1][0x3F3] = 0xFE;
        self.memories[0][0x3F4] = 0xFF;
        self.memories[1][0x3F4] = 0xFF;
        self.memories[0][0x4e] = 0x7f;
        // Make Ankh work
        let mut k: usize = 0;
        while k < 8
            invariant
                k <= 8,
                forall|j: int| 0 <= j < 0x10000 && !(j < 0xc000 + k * 0x100 && j >= 0xc000 && j % 0x100 == 0) ==> #[trigger] self.memories@[1]@[j] == (if j == 0x3f3 {
                    0xfe
                } else if j == 0x3f4 {
                    0xff
                } else if j < 0xc000 {
                    initial_ram(j)
                } else {
                    old(self).memories@[1]@[j]
                }),
                forall|j: int| 0xc000 <= j < 0xc000 + k * 0x100 && j % 0x100 == 0 ==> #[trigger] self.memories@[1]@[j] == 1,
                forall|j: int| 0 <= j < 0x10000 ==> #[trigger] self.memories@[0]@[j] == (if j == 0x3f3 {
                    0xfe
                } else if j == 0x3f4 {
                    0xff
                } else if j == 0x4e {
                    0x7f
                } else if j < 0xc000 {
                    initial_ram(j)
                } else {
                    old(self).memories@[0]@[j]
                }),
                *self == (Apple2Memory { memories: self.memories, ..*old(self) }),
            decreases 8 - k,
        {
            let address = 0xc000 + k * 0x100;
            self.memories[1][address] = 1;
            k += 1;
        }
        proof {
            assert(self.memories@[0]@ =~= prepared_bank(old(self).memories@[0]@, 0));
            assert(self.memories@[1]@ =~= prepared_bank(old(self).memories@[1]@, 1));
            lemma_loaded_len(prepared_bank(old(self).memories@[MAIN as int]@, 0), rom@, rom_offset, 0, 0, rom@.len() as int);
        }
        self.load_bytes(rom, rom_offset, 0, 0, true);
        self.load_bytes(disk2_rom, 0xc600, 0, 0x100, false);
        if !shared.show_drives && shared.hard_drives[0].disk_info.is_some() {
            self.load_bytes(smartport_rom, 0xc700, 0, 0x100, false);
        }
    }
}

} // verus!

