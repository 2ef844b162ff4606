use vstd::prelude::*;
use crate::cycle_actions::{Actions, ActionWrapper, CycleAction, UpdatePhaseAction};
use crate::disk::bit_stream::{Nibble, nibble_bits, BitStreams};
use crate::disk::disk::Disk;
use crate::disk::disk_info::DiskInfo;
use crate::disk::drive::{Drive, DriveStatus};
use crate::disk::lss::Lss;
use crate::messages::ToUi;
use crate::noise::noise_bit;
use crate::shared::Shared;

verus! {

/// Quarter-track positions of the head: divide by 2 to get the phase, by 4 to
/// get the track.
pub const MAX_PHASE: usize = 160;

/// 40 tracks max
pub const MAX_TRACK: usize = 40;

/// A .dsk only has 35 tracks, not 40
pub const MAX_TRACK_DSK: usize = 35;

/// Size of a sector
pub const SECTOR_SIZE_BYTES: usize = 256;

/// A track has 16 sectors of 256 bytes each
pub const TRACK_SIZE_BYTES: usize = 4096;

/// Size of a disk
pub const DSK_SIZE_BYTES: usize = 143360;

/// Size of the data field (following D5 AA AD)
pub const DATA_FIELD_SIZE: usize = 343;

/// Physical position (in the order the sectors pass under the head) of each
/// logical DOS 3.3 sector.
pub const LOGICAL_SECTORS: [u8; 16] = [0, 7, 14, 6, 13, 5, 12, 4, 11, 3, 10, 2, 9, 1, 8, 15];

pub const LOGICAL_SECTORS_WRITE: [u8; 16] = [
    0,
    0xd,
    0xb,
    9,
    7,
    5,
    3,
    1,
    0xe,
    0xc,
    0xa,
    8,
    6,
    4,
    2,
    0xf,
];

/// How the controller gets nibbles off the disk: whole bytes, bit by bit, or
/// through the logic state sequencer.
#[derive(Clone, Copy, Debug, PartialEq, Eq, Structural)]
pub enum NibbleStrategy {
    Bytes,
    Bits,
    Lss,
}

/// The strategy in use.
pub const NIBBLE_STRATEGY: NibbleStrategy = NibbleStrategy::Lss;

/// Steps during which a byte is held when reading whole bytes.
pub const HOLD: u16 = 81;

/// Where the reading of an address field is.
#[derive(Clone, Copy, Debug, PartialEq, Eq, Structural)]
pub enum SectorState {
    Start,
    D5,
    D5Aa,
    Volume0,
    Volume1,
    Track0,
    Track1,
    Sector0,
    Sector1,
    Checksum0,
}

/// Follows the address fields that pass under the head, to know which
/// sector is being read.
#[derive(Clone, Copy, Debug, PartialEq, Eq, Structural)]
pub struct SectorRead {
    pub state: SectorState,
    pub current_byte: u8,
    pub volume: u8,
    pub track: u8,
    pub sector: u8,
}

/// The byte that a 4-and-4 pair of disk bytes encodes.
pub open spec fn pair(b0: u8, b1: u8) -> u8 {
    (((b0 << 1u8) | 1) & b1) as u8
}

/// The address field reader after `byte`.
pub open spec fn sector_read_next(s: SectorRead, byte: u8) -> SectorRead {
    if byte == 0xd5 && s.state == SectorState::Start {
        SectorRead { state: SectorState::D5, ..s }
    } else if byte == 0xaa && s.state == SectorState::D5 {
        SectorRead { state: SectorState::D5Aa, ..s }
    } else if byte == 0x96 && s.state == SectorState::D5Aa {
        SectorRead { state: SectorState::Volume0, ..s }
    } else {
        match s.state {
            SectorState::Volume0 => SectorRead { current_byte: byte, state: SectorState::Volume1, ..s },
            SectorState::Volume1 => SectorRead {
                volume: pair(s.current_byte, byte),
                state: SectorState::Track0,
                ..s
            },
            SectorState::Track0 => SectorRead { current_byte: byte, state: SectorState::Track1, ..s },
            SectorState::Track1 => SectorRead {
                track: pair(s.current_byte, byte),
                state: SectorState::Sector0,
                ..s
            },
            SectorState::Sector0 => SectorRead { current_byte: byte, state: SectorState::Sector1, ..s },
            SectorState::Sector1 => SectorRead {
                sector: pair(s.current_byte, byte),
                state: SectorState::Start,
                ..s
            },
            _ => SectorRead { state: SectorState::Start, ..s },
        }
    }
}

/// `byte` completes an address field: the sector it names is now known.
pub open spec fn completes_address(s: SectorRead, byte: u8) -> bool {
    s.state == SectorState::Sector1 && !(byte == 0xd5 && s.state == SectorState::Start)
}

fn pair_of(b0: u8, b1: u8) -> (r: u8)
    ensures
        r == pair(b0, b1),
{
    ((b0 << 1u8) | 1) & b1
}

impl SectorRead {
    pub fn default() -> (r: SectorRead)
        ensures
            r == (SectorRead { state: SectorState::Start, current_byte: 0, volume: 0, track: 0, sector: 0 }),
    {
        SectorRead { state: SectorState::Start, current_byte: 0, volume: 0, track: 0, sector: 0 }
    }

    /// Follow `byte`; once an address field is read, its sector is shared as
    /// the sector under the head of drive `disk_index`.
    pub fn read_byte(&mut self, disk_index: usize, byte: u8, shared: &mut Shared)
        requires
            disk_index < 2,
        ensures
            *final(self) == sector_read_next(*old(self), byte),
            completes_address(*old(self), byte) ==> final(shared).sector_set(
                *old(shared),
                disk_index as int,
                final(self).sector,
            ),
            !completes_address(*old(self), byte) ==> *final(shared) == *old(shared),
    {
        if byte == 0xd5 && self.state == SectorState::Start {
            self.state = SectorState::D5;
        } else if byte == 0xaa && self.state == SectorState::D5 {
            self.state = SectorState::D5Aa;
        } else if byte == 0x96 && self.state == SectorState::D5Aa {
            self.state = SectorState::Volume0;
        } else {
            match self.state {
                SectorState::Volume0 => {
                    self.current_byte = byte;
                    self.state = SectorState::Volume1;
                },
                SectorState::Volume1 => {
                    self.volume = pair_of(self.current_byte, byte);
                    self.state = SectorState::Track0;
                },
                SectorState::Track0 => {
                    self.current_byte = byte;
                    self.state = SectorState::Track1;
                },
                SectorState::Track1 => {
                    self.track = pair_of(self.current_byte, byte);
                    self.state = SectorState::Sector0;
                },
                SectorState::Sector0 => {
                    self.current_byte = byte;
                    self.state = SectorState::Sector1;
                },
                SectorState::Sector1 => {
                    self.sector = pair_of(self.current_byte, byte);
                    self.state = SectorState::Start;
                    shared.set_sector(disk_index, self.sector);
                },
                _ => {
                    self.state = SectorState::Start;
                },
            }
        }
    }
}

/// The magnets of the stepper motor after an access to `address` (bit 0:
/// on/off, bits 1-2: which magnet).
pub open spec fn magnets_after(ms: u8, address: u16) -> u8 {
    let phase = ((address >> 1u16) & 3) as u8;
    let phase_bit = (1u8 << phase) as u8;
    ((if address & 1 != 0 {
        ms | phase_bit
    } else {
        ms & (phase_bit ^ 0xff)
    }) & 0xf) as u8
}

/// Whether magnet number `m` (0..3) is on.
pub open spec fn magnet_on(ms: u8, m: usize) -> bool {
    ms & ((1u8 << ((m & 3) as u8)) as u8) != 0
}

/// The pull of the magnets on the head at half-track `dp`: +1 inwards, -1
/// outwards, 0 when both or none pull.
pub open spec fn magnet_pull(ms: u8, dp: usize) -> int {
    (if magnet_on(ms, (dp + 1) as usize) {
        1int
    } else {
        0
    }) - (if magnet_on(ms, (dp + 3) as usize) {
        1int
    } else {
        0
    })
}

/// Two adjacent magnets are on: the head sits between two half-tracks.
pub open spec fn quarter_magnets(ms: u8) -> bool {
    ms == 0xc || ms == 0x6 || ms == 0x3 || ms == 9
}

/// One half-track in `direction`, within 0..79.
pub open spec fn moved(current: int, direction: int) -> int {
    if direction == 1 {
        if current < 79 {
            current + 1
        } else {
            current
        }
    } else if direction == -1 {
        if current > 0 {
            current - 1
        } else {
            current
        }
    } else {
        current
    }
}

/// The quarter-track that the head goes to from half-track `dp` when the
/// magnets are `ms`.
pub open spec fn stepper_target(ms: u8, dp: usize) -> (int, int) {
    let pull = magnet_pull(ms, dp);
    let q = quarter_magnets(ms);
    let dp2 = moved(dp as int, if q { 0 } else { pull });
    let p = 2 * dp2 + if q { pull } else { 0 };
    (dp2, if p < 0 { 0 } else { p })
}

/// The floppy disk controller of a slot: two drives and the circuits that
/// read and write their disks.
pub struct DiskController {
    /// 1-6
    pub slot: u8,
    pub drives: [Drive; 2],
    pub drive_index: usize,
    pub magnet_states: u8,
    /// Current track * 2 (range: 0-79)
    pub drive_phase_80: usize,
    /// The address field being read
    pub sector_read: SectorRead,
    /// Next byte to return
    pub latch: u8,
    pub missed_bytes: u32,
    pub clock: u128,
    /// Clock of the last write, to know how many sync bits to insert
    pub previous_write_clock: u128,
    /// How long to hold a byte
    pub hold: u16,
    pub lss: Lss,
    pub q6: bool,
    pub q7: bool,
    pub next_qa: u8,
    /// Bits last read, for the bit by bit strategy
    pub head_window: u8,
    /// Deferred actions (moving the head, spinning down the drive)
    pub actions: Actions,
    /// Something was written: the disk must be saved before the head moves
    pub write_dirty: bool,
    /// Next byte to be written
    pub write_load: u8,
    /// Last quarter-track read of each drive
    pub first_time_reading_phase: [u8; 2],
    /// Messages for the user interface, oldest first
    pub messages: Vec<ToUi>,
    /// Drives whose disk must be saved, oldest first
    pub saves: Vec<usize>,
}

/// The message that reports a change of the motor of drive `n` from `old`
/// to `new` (none if there is no change).
pub open spec fn motor_message(n: usize, old: DriveStatus, new: DriveStatus) -> Seq<ToUi> {
    if old == new {
        Seq::empty()
    } else {
        seq![ToUi::DriveMotorStatus(n, new)]
    }
}

/// The state of a motor after `turn_off`.
pub open spec fn turned_off(s: DriveStatus) -> DriveStatus {
    match s {
        DriveStatus::On => DriveStatus::SpinningDown,
        _ => DriveStatus::Off,
    }
}

impl DiskController {
    /// The address, relative to slot 0.
    pub open spec fn offset(&self, address: u16) -> int {
        address - self.slot * 16
    }

    /// The controller answers `address`.
    pub open spec fn accepts(&self, address: u16) -> bool {
        address >= 0xc080 && 0xc080 <= self.offset(address) <= 0xc08f
    }

    /// The position of the head in the selected drive's disk (0 with no disk).
    pub open spec fn current_position(&self) -> usize {
        match self.drives[self.drive_index as int].disk {
            Some(d) => d.bit_position,
            None => 0,
        }
    }

    /// The selected drive's motor turns.
    pub open spec fn motor_on(&self) -> bool {
        self.drives[self.drive_index as int].status != DriveStatus::Off
    }

    /// The controller of slot `slot`, its drives empty.
    pub fn new(slot: u8) -> (r: DiskController)
        ensures
            r.slot == slot,
            r.drives[0].disk is None && r.drives[1].disk is None,
            r.drives[0].status == DriveStatus::Off && r.drives[1].status == DriveStatus::Off,
            r.drives[0].drive_number == 0 && r.drives[1].drive_number == 0,
            r.drives[0].phase160 == 0 && r.drives[1].phase160 == 0,
            r.drive_index == 0,
            r.drive_phase_80 == 0,
            r.magnet_states == 0,
            r.latch == 0,
            r.clock == 0,
            r.previous_write_clock == 0,
            r.lss.wf(),
            !r.q6 && !r.q7,
            r.actions.actions@.len() == 0,
            !r.write_dirty,
            r.first_time_reading_phase@ == seq![0u8, 0],
            r.messages@.len() == 0,
            r.saves@.len() == 0,
            r.sector_read.state == SectorState::Start,
    {
        DiskController {
            slot,
            drives: [Drive::new(0, None), Drive::new(0, None)],
            drive_index: 0,
            magnet_states: 0,
            drive_phase_80: 0,
            sector_read: SectorRead::default(),
            latch: 0,
            missed_bytes: 0,
            clock: 0,
            previous_write_clock: 0,
            hold: 0,
            lss: Lss::default(),
            q6: false,
            q7: false,
            next_qa: 0,
            head_window: 0,
            actions: Actions::new(),
            write_dirty: false,
            write_load: 0,
            first_time_reading_phase: [0, 0],
            messages: Vec::new(),
            saves: Vec::new(),
        }
    }

    /// Whether the controller answers `address`: one of the 16 addresses of
    /// its slot, from $C080 + slot * 16 on.
    pub fn accept(&self, address: u16) -> (r: bool)
        requires
            self.slot < 16,
        ensures
            r == self.accepts(address),
    {
        if address >= 0xc080 {
            let a = address - (self.slot * 16) as u16;
            a >= 0xc080 && a <= 0xc08f
        } else {
            false
        }
    }

    pub fn is_motor_on(&self) -> (r: bool)
        requires
            self.drive_index < 2,
        ensures
            r == self.motor_on(),
    {
        self.drives[self.drive_index].is_on()
    }

    pub fn current_bit_position(&self) -> (r: usize)
        requires
            self.drive_index < 2,
        ensures
            r == self.current_position(),
    {
        match &self.drives[self.drive_index].disk {
            Some(disk) => disk.bit_position,
            None => 0,
        }
    }

    /// Move the head of the selected drive's disk, if there is one.
    pub fn set_current_bit_position(&mut self, position: usize)
        requires
            old(self).drive_index < 2,
        ensures
            ({
                let i = old(self).drive_index as int;
                &&& final(self).drives[1 - i] == old(self).drives[1 - i]
                &&& final(self).drives[i] == (Drive {
                    disk: match old(self).drives[i].disk {
                        Some(d) => Some(Disk { bit_position: position, ..d }),
                        None => None,
                    },
                    ..old(self).drives[i]
                })
                &&& *final(self) == (DiskController { drives: final(self).drives, ..*old(self) })
            }),
    {
        match &mut self.drives[self.drive_index].disk {
            Some(disk) => {
                disk.bit_position = position;
            },
            None => {},
        }
    }

    /// The half-track after one step in `direction` (-1, 0 or 1), within 0..79.
    pub fn move_in_direction(current: u8, direction: i8) -> (r: u8)
        requires
            -1 <= direction <= 1,
        ensures
            r == moved(current as int, direction as int),
    {
        if direction == 0 {
            current
        } else if direction == 1 {
            if current < 79 {
                current + 1
            } else {
                current
            }
        } else {
            if current > 0 {
                current - 1
            } else {
                current
            }
        }
    }

    /// The track under the head: half the half-track.
    pub fn track(&self) -> (r: usize)
        ensures
            r == self.drive_phase_80 / 2,
    {
        let dp = self.drive_phase_80;
        assert(dp >> 1usize == dp / 2) by (bit_vector);
        dp >> 1
    }

    /// `self` is `old` after the stepper motor saw an access to `address`.
    pub open spec fn stepped_by(&self, old: DiskController, address: u16) -> bool {
        let ms = magnets_after(old.magnet_states, address);
        let pull = magnet_pull(ms, old.drive_phase_80);
        let (dp, phase) = stepper_target(ms, old.drive_phase_80);
        let save = pull != 0 && old.write_dirty;
        &&& self.magnet_states == ms
        &&& self.drive_phase_80 == dp
        &&& self.write_dirty == (old.write_dirty && !save)
        &&& self.saves@ == if save && old.drives[old.drive_index as int].disk is Some {
            old.saves@.push(old.drive_index)
        } else {
            old.saves@
        }
        &&& self.actions.actions@ == old.actions.actions@.push(
            ActionWrapper {
                wait: 1,
                has_run: false,
                action: CycleAction::UpdatePhase(
                    UpdatePhaseAction { drive_index: old.drive_index, phase_160: phase as usize },
                ),
            },
        )
        &&& *self == (DiskController {
            magnet_states: self.magnet_states,
            drive_phase_80: self.drive_phase_80,
            write_dirty: self.write_dirty,
            saves: self.saves,
            actions: self.actions,
            ..old
        })
    }

    /// The stepper motor: an access to $C080-$C087 turns one of its four
    /// magnets on or off, which may move the head (the move is scheduled for
    /// the next cycle). A disk written to is saved before its head moves.
    pub fn update_stepper(&mut self, address: u16)
        requires
            old(self).drive_index < 2,
            old(self).drive_phase_80 < 80,
        ensures
            final(self).stepped_by(*old(self), address),
            final(self).drive_phase_80 < 80,
    {
        let phase = ((address >> 1u16) & 3) as u8;
        assert(phase < 8) by (bit_vector)
            requires
                phase == ((address >> 1u16) & 3) as u8,
        ;
        let phase_bit: u8 = 1u8 << phase;
        if (address & 1) != 0 {
            self.magnet_states = self.magnet_states | phase_bit;
        } else {
            let inverse = phase_bit ^ 0xff;
            self.magnet_states = self.magnet_states & inverse;
        }
        self.magnet_states = self.magnet_states & 0xf;
        let dp = self.drive_phase_80;
        let dp1: usize = dp + 1;
        let dp3: usize = dp + 3;
        let m1 = (dp1 & 3) as u8;
        let m3 = (dp3 & 3) as u8;
        assert(m1 < 8 && m3 < 8) by (bit_vector)
            requires
                m1 == (dp1 & 3) as u8,
                m3 == (dp3 & 3) as u8,
        ;
        let mut direction: i8 = 0;
        if self.magnet_states & (1u8 << m1) != 0 {
            direction += 1;
        }
        if self.magnet_states & (1u8 << m3) != 0 {
            direction -= 1;
        }
        if direction != 0 {
            if self.write_dirty {
                if self.drives[self.drive_index].disk.is_some() {
                    self.saves.push(self.drive_index);
                }
                self.write_dirty = false;
            }
        }
        let mut quarter_direction: i8 = 0;
        let ms = self.magnet_states;
        if ms == 0xc || ms == 0x6 || ms == 0x3 || ms == 9 {
            quarter_direction = direction;
            direction = 0;
        }
        self.drive_phase_80 = DiskController::move_in_direction(self.drive_phase_80 as u8, direction) as usize;
        let doubled: i16 = 2 * self.drive_phase_80 as i16 + quarter_direction as i16;
        let phase_160: usize = if doubled < 0 { 0 } else { doubled as usize };
        self.actions.add_action(
            1,
            CycleAction::UpdatePhase(
                UpdatePhaseAction { drive_index: self.drive_index, phase_160 },
            ),
        );
    }

    /// What an access to `address` requires: the address is the controller's,
    /// and a write has a track under the head and the time it needs.
    pub open spec fn access_ok(&self, address: u16) -> bool {
        let di = self.drive_index as int;
        &&& self.slot < 16
        &&& self.accepts(address)
        &&& self.drive_index < 2
        &&& self.drive_phase_80 < 80
        &&& (self.offset(address) == 0xc08c && self.q7 && self.drives[di].disk is Some ==> {
            &&& self.previous_write_clock <= self.clock
            &&& (self.previous_write_clock != 0 ==> self.clock - self.previous_write_clock >= 64)
            &&& self.drives[di].disk->0.writable(2 * self.drive_phase_80)
        })
    }

    /// Whether an access to `address` can be made (see `access_ok`).
    pub fn can_access(&self, address: u16) -> (r: bool)
        ensures
            r == self.access_ok(address),
    {
        if self.slot >= 16 || self.drive_index >= 2 || self.drive_phase_80 >= 80 {
            return false;
        }
        if !self.accept(address) {
            return false;
        }
        let a = address - (self.slot * 16) as u16;
        if a == 0xc08c && self.q7 {
            match &self.drives[self.drive_index].disk {
                Some(disk) => {
                    if self.previous_write_clock > self.clock {
                        return false;
                    }
                    if self.previous_write_clock != 0 && self.clock - self.previous_write_clock < 64 {
                        return false;
                    }
                    disk.can_write(2 * self.drive_phase_80)
                },
                None => true,
            }
        } else {
            true
        }
    }

    /// Number of sync bits to write before a nibble: a quarter of the bit
    /// cells that the time since the last write leaves past 64 cycles.
    pub open spec fn sync_bits(&self) -> u16 {
        if self.previous_write_clock == 0 {
            0
        } else {
            let rest = (self.clock - self.previous_write_clock - 64) / 2;
            if rest > 4 {
                (rest / 4) as u16
            } else {
                0
            }
        }
    }

    /// `self` is `old` after an access to `address` with `value` that gave
    /// `r`, `sh0` and `sh1` being the shared state before and after.
    pub open spec fn accessed(
        &self,
        old: DiskController,
        sh0: Shared,
        sh1: Shared,
        address: u16,
        value: u8,
        r: u8,
    ) -> bool {
        let a = old.offset(address);
        let di = old.drive_index as int;
        if 0xc080 <= a <= 0xc087 {
            &&& r == old.latch
            &&& sh1 == sh0
            &&& if old.motor_on() {
                self.stepped_by(old, (a as u16))
            } else {
                *self == old
            }
        } else if a == 0xc088 {
            let st = turned_off(old.drives[di].status);
            &&& r == 0
            &&& sh1 == sh0
            &&& self.drives[di] == (Drive { status: st, ..old.drives[di] })
            &&& self.drives[1 - di] == old.drives[1 - di]
            &&& self.messages@ == old.messages@ + motor_message(
                old.drives[di].drive_number,
                old.drives[di].status,
                st,
            )
            &&& *self == (DiskController { drives: self.drives, messages: self.messages, ..old })
        } else if a == 0xc089 {
            &&& r == 0
            &&& sh1 == sh0
            &&& self.drives[di] == (Drive { status: DriveStatus::On, ..old.drives[di] })
            &&& self.drives[1 - di] == old.drives[1 - di]
            &&& self.messages@ == old.messages@.push(
                ToUi::DriveMotorStatus(old.drives[di].drive_number, DriveStatus::On),
            )
            &&& self.actions.actions@ == motor_offs_cancelled(old.actions.actions@)
            &&& *self == (DiskController {
                drives: self.drives,
                messages: self.messages,
                actions: self.actions,
                ..old
            })
        } else if a == 0xc08a || a == 0xc08b {
            let n: usize = if a == 0xc08a { 0 } else { 1 };
            &&& r == 0
            &&& sh1 == sh0
            &&& self.messages@ == old.messages@.push(ToUi::DiskSelected(n))
            &&& *self == (DiskController { drive_index: n, messages: self.messages, ..old })
        } else if a == 0xc08c {
            self.q6_low(old, sh0, sh1, r)
        } else if a == 0xc08d {
            &&& r == 0
            &&& sh1 == sh0
            &&& self.lss == (Lss { latch: old.lss.latch & 0x7f, state: 0, ..old.lss })
            &&& *self == (DiskController {
                q6: true,
                lss: self.lss,
                write_load: if old.q7 { value } else { old.write_load },
                ..old
            })
        } else if a == 0xc08e {
            &&& r == (if old.q6 && old.drives[di].disk is Some
                && old.drives[di].disk->0.image.info().is_write_protected {
                0xffu8
            } else {
                0u8
            })
            &&& sh1 == sh0
            &&& *self == (DiskController { q7: false, previous_write_clock: 0, ..old })
        } else {
            &&& r == 0
            &&& sh1 == sh0
            &&& *self == (DiskController { q7: true, previous_write_clock: 0, write_load: value, ..old })
        }
    }

    /// `self` is `old` after an access to Q6L ($C08C): read the data latch,
    /// or write the byte loaded for writing.
    pub open spec fn q6_low(&self, old: DiskController, sh0: Shared, sh1: Shared, r: u8) -> bool {
        let di = old.drive_index as int;
        let cp = sh0.drives[di].phase_160;
        let first = old.first_time_reading_phase@[di] != cp;
        &&& self.messages@ == old.messages@ + (if first {
            seq![ToUi::FirstRead(old.drive_index, cp)]
        } else {
            Seq::empty()
        })
        &&& self.first_time_reading_phase@ == (if first {
            old.first_time_reading_phase@.update(di, cp)
        } else {
            old.first_time_reading_phase@
        })
        &&& !self.q6
        &&& if !old.q7 {
            &&& r == old.latch
            &&& if old.latch >= 0x80 {
                &&& self.sector_read == sector_read_next(old.sector_read, old.latch)
                &&& (if completes_address(old.sector_read, old.latch) {
                    sh1.sector_set(sh0, di, self.sector_read.sector)
                } else {
                    sh1 == sh0
                })
                &&& self.latch == (if NIBBLE_STRATEGY != NibbleStrategy::Bits {
                    0
                } else {
                    old.latch
                })
            } else {
                &&& self.sector_read == old.sector_read
                &&& sh1 == sh0
                &&& self.latch == old.latch
            }
            &&& *self == (DiskController {
                q6: false,
                messages: self.messages,
                first_time_reading_phase: self.first_time_reading_phase,
                sector_read: self.sector_read,
                latch: self.latch,
                previous_write_clock: 0,
                ..old
            })
        } else {
            let nibble = Nibble {
                value: old.write_load,
                sync_bits: old.sync_bits(),
                area_type: crate::disk::bit_stream::AreaType::Unknown,
            };
            &&& r == 0
            &&& sh1 == sh0
            &&& self.drives[1 - di] == old.drives[1 - di]
            &&& match old.drives[di].disk {
                Some(d) => {
                    &&& self.drives[di].disk is Some
                    &&& self.drives[di].disk->0.bits_written(
                        d,
                        2 * old.drive_phase_80,
                        nibble_bits(nibble),
                    )
                    &&& self.drives[di] == (Drive { disk: self.drives[di].disk, ..old.drives[di] })
                },
                None => self.drives[di] == old.drives[di],
            }
            &&& *self == (DiskController {
                q6: false,
                messages: self.messages,
                first_time_reading_phase: self.first_time_reading_phase,
                drives: self.drives,
                previous_write_clock: old.clock,
                write_dirty: true,
                ..old
            })
        }
    }

    /// Read or write one of the controller's addresses (`get`: a read).
    pub fn get_or_set(&mut self, shared: &mut Shared, get: bool, address: u16, value: u8) -> (r: u8)
        requires
            old(self).access_ok(address),
        ensures
            final(self).accessed(*old(self), *old(shared), *final(shared), address, value, r),
    {
        let a = address - (self.slot * 16) as u16;
        let di = self.drive_index;
        if a <= 0xc087 {
            if self.is_motor_on() {
                self.update_stepper(a);
            }
            self.latch
        } else if a == 0xc088 {
            let before = self.drives[di].status;
            self.drives[di].turn_off();
            let after = self.drives[di].status;
            if before != after {
                self.messages.push(ToUi::DriveMotorStatus(self.drives[di].drive_number, after));
            }
            proof {
                assert(self.messages@ =~= old(self).messages@ + motor_message(
                    old(self).drives[di as int].drive_number,
                    before,
                    after,
                ));
            }
            0
        } else if a == 0xc089 {
            self.drives[di].turn_on();
            self.messages.push(ToUi::DriveMotorStatus(self.drives[di].drive_number, DriveStatus::On));
            self.actions.remove_motor_off_actions();
            proof {
                assert(self.actions.actions@ =~= motor_offs_cancelled(old(self).actions.actions@));
            }
            0
        } else if a == 0xc08a {
            self.messages.push(ToUi::DiskSelected(0));
            self.drive_index = 0;
            0
        } else if a == 0xc08b {
            self.messages.push(ToUi::DiskSelected(1));
            self.drive_index = 1;
            0
        } else if a == 0xc08c {
            self.q6_low_access(shared)
        } else if a == 0xc08d {
            self.q6 = true;
            self.lss.reset();
            if self.q7 {
                self.write_load = value;
            }
            0
        } else if a == 0xc08e {
            self.q7 = false;
            self.previous_write_clock = 0;
            let mut result: u8 = 0;
            if self.q6 {
                match &self.drives[di].disk {
                    Some(disk) => {
                        if disk.image.disk_info().is_write_protected {
                            result = 0xff;
                        }
                    },
                    None => {},
                }
            }
            result
        } else {
            self.previous_write_clock = 0;
            self.q7 = true;
            self.write_load = value;
            0
        }
    }

    fn q6_low_access(&mut self, shared: &mut Shared) -> (r: u8)
        requires
            old(self).drive_index < 2,
            old(self).drive_phase_80 < 80,
            old(self).q7 && old(self).drives[old(self).drive_index as int].disk is Some ==> {
                &&& old(self).previous_write_clock <= old(self).clock
                &&& (old(self).previous_write_clock != 0 ==> old(self).clock - old(
                    self,
                ).previous_write_clock >= 64)
                &&& old(self).drives[old(self).drive_index as int].disk->0.writable(
                    2 * old(self).drive_phase_80,
                )
            },
        ensures
            final(self).q6_low(*old(self), *old(shared), *final(shared), r),
    {
        let di = self.drive_index;
        let current_phase = shared.get_phase_160(di);
        if self.first_time_reading_phase[di] != current_phase {
            self.messages.push(ToUi::FirstRead(di, shared.get_phase_160(di)));
            self.first_time_reading_phase[di] = current_phase;
        }
        proof {
            let first = old(self).first_time_reading_phase@[di as int] != current_phase;
            assert(self.messages@ =~= old(self).messages@ + (if first {
                seq![ToUi::FirstRead(di, current_phase)]
            } else {
                Seq::empty()
            }));
        }
        self.q6 = false;
        if !self.q7 {
            let result = self.latch;
            assert((result & 0x80 > 0) == (result >= 0x80)) by (bit_vector);
            if (result & 0x80) > 0 {
                self.sector_read.read_byte(di, result, shared);
                if NIBBLE_STRATEGY != NibbleStrategy::Bits {
                    self.latch = 0;
                }
            }
            self.previous_write_clock = 0;
            result
        } else {
            let phase_160 = self.drive_phase_80 * 2;
            let clock = self.clock;
            let previous = self.previous_write_clock;
            let write_load = self.write_load;
            match &mut self.drives[di].disk {
                Some(disk) => {
                    let delta = clock - previous;
                    let mut sync_bits: u16 = 0;
                    if previous != 0 {
                        let rest = (delta - 64) / 2;
                        if rest > 4 {
                            sync_bits = #[verifier::truncate] ((rest / 4) as u16);
                        }
                    }
                    let nibble = Nibble::new(write_load, sync_bits);
                    let bits = nibble.to_bits();
                    disk.write_bits(phase_160, &bits);
                },
                None => {},
            }
            self.previous_write_clock = self.clock;
            self.write_dirty = true;
            0
        }
    }
}

/// The actions with every motor-off action marked as run.
pub open spec fn motor_offs_cancelled(acts: Seq<ActionWrapper>) -> Seq<ActionWrapper> {
    Seq::new(
        acts.len(),
        |k: int|
            if acts[k].action is MotorOff {
                ActionWrapper { has_run: true, ..acts[k] }
            } else {
                acts[k]
            },
    )
}

/// What running the deferred actions changes, as it goes.
pub ghost struct ActionsRun {
    /// Quarter-track of each drive's head
    pub phases: Seq<usize>,
    /// Each drive's motor
    pub statuses: Seq<DriveStatus>,
    /// Quarter-track of each drive as shared
    pub shared_phases: Seq<u8>,
    /// New position of the head in the selected drive's disk, if any
    pub position: Option<usize>,
    /// Messages sent
    pub messages: Seq<ToUi>,
}

/// Before any action ran.
pub open spec fn run_start(dc: DiskController, sh: Shared) -> ActionsRun {
    ActionsRun {
        phases: seq![dc.drives[0].phase160, dc.drives[1].phase160],
        statuses: seq![dc.drives[0].status, dc.drives[1].status],
        shared_phases: seq![sh.drives[0].phase_160, sh.drives[1].phase_160],
        position: None,
        messages: Seq::empty(),
    }
}

/// Number of bits of the track of `d` at quarter-track `phase` (1 where
/// there is no track).
pub open spec fn track_len(d: Disk, phase: int) -> int {
    d.streams().stream_len(phase)
}

/// What action `a` does, the head of the selected drive being at `current`:
/// a due action runs (moving a head rescales the head's position in the
/// track to the track's length), the others wait.
pub open spec fn run_action(dc: DiskController, r: ActionsRun, a: ActionWrapper, current: int) -> ActionsRun {
    if a.wait != 0 {
        r
    } else {
        match a.action {
            CycleAction::UpdatePhase(v) => {
                let i = v.drive_index as int;
                ActionsRun {
                    phases: r.phases.update(i, v.phase_160),
                    shared_phases: r.shared_phases.update(i, v.phase_160 as u8),
                    position: match dc.drives[i].disk {
                        Some(d) => {
                            let len = track_len(d, v.phase_160 as int);
                            Some(((current * len / len) % len) as usize)
                        },
                        None => r.position,
                    },
                    ..r
                }
            },
            CycleAction::MotorOff(v) => {
                let i = v.drive_index as int;
                if a.has_run {
                    r
                } else {
                    let st = turned_off(r.statuses[i]);
                    ActionsRun {
                        statuses: r.statuses.update(i, st),
                        messages: r.messages + motor_message(dc.drives[i].drive_number, r.statuses[i], st),
                        ..r
                    }
                }
            },
        }
    }
}

/// What the first `n` actions do.
pub open spec fn run_actions(dc: DiskController, sh: Shared, acts: Seq<ActionWrapper>, n: int, current: int) -> ActionsRun
    decreases n,
{
    if n <= 0 {
        run_start(dc, sh)
    } else {
        run_action(dc, run_actions(dc, sh, acts, n - 1, current), acts[n - 1], current)
    }
}

/// The actions of the first `n` that still wait, each one cycle closer.
pub open spec fn kept_actions(acts: Seq<ActionWrapper>, n: int) -> Seq<ActionWrapper>
    decreases n,
{
    if n <= 0 {
        Seq::empty()
    } else {
        let prev = kept_actions(acts, n - 1);
        let a = acts[n - 1];
        if a.wait != 0 && !a.has_run {
            prev.push(ActionWrapper { wait: (a.wait - 1) as u64, ..a })
        } else {
            prev
        }
    }
}

/// Action `a` can run: its drive exists, and a disk in it has a track, not
/// empty, where the head goes.
pub open spec fn action_ok(dc: DiskController, a: ActionWrapper, current: int) -> bool {
    a.wait == 0 ==> match a.action {
        CycleAction::UpdatePhase(v) => {
            &&& v.drive_index < 2
            &&& match dc.drives[v.drive_index as int].disk {
                Some(d) => {
                    &&& d.streams().phase_ok(v.phase_160 as int)
                    &&& track_len(d, v.phase_160 as int) > 0
                    &&& current * track_len(d, v.phase_160 as int) <= usize::MAX
                },
                None => true,
            }
        },
        CycleAction::MotorOff(v) => !a.has_run ==> v.drive_index < 2,
    }
}

impl DiskController {
    /// All the deferred actions can run.
    pub open spec fn actions_ok(&self) -> bool {
        &&& self.drive_index < 2
        &&& forall|k: int|
            0 <= k < self.actions.actions@.len() ==> action_ok(
                *self,
                #[trigger] self.actions.actions@[k],
                self.current_position() as int,
            )
    }

    /// `self` and `sh1` are `old` and `sh0` after the deferred actions ran.
    pub open spec fn actions_ran(&self, old: DiskController, sh0: Shared, sh1: Shared) -> bool {
        let acts = old.actions.actions@;
        let run = run_actions(old, sh0, acts, acts.len() as int, old.current_position() as int);
        &&& forall|i: int|
            0 <= i < 2 ==> #[trigger] self.drives[i] == (Drive {
                phase160: run.phases[i],
                status: run.statuses[i],
                disk: if i == old.drive_index && run.position is Some && old.drives[i].disk is Some {
                    Some(Disk { bit_position: run.position->0, ..old.drives[i].disk->0 })
                } else {
                    old.drives[i].disk
                },
                ..old.drives[i]
            })
        &&& forall|i: int|
            0 <= i < 2 ==> #[trigger] sh1.drives[i] == (crate::shared::SharedDrive {
                phase_160: run.shared_phases[i],
                ..sh0.drives[i]
            })
        &&& sh1 == (Shared { drives: sh1.drives, ..sh0 })
        &&& self.messages@ == old.messages@ + run.messages
        &&& self.actions.actions@ == kept_actions(acts, acts.len() as int)
        &&& *self == (DiskController {
            drives: self.drives,
            messages: self.messages,
            actions: self.actions,
            ..old
        })
    }

    /// Run the deferred actions that are due, count down the others, and
    /// forget those that ran.
    pub fn execute_actions(&mut self, shared: &mut Shared)
        requires
            old(self).actions_ok(),
        ensures
            final(self).actions_ran(*old(self), *old(shared), *final(shared)),
    {
        let ghost acts = old(self).actions.actions@;
        let current = self.current_bit_position();
        let ghost sh0 = *old(shared);
        let ghost dc0 = *old(self);
        let mut new_bit_position: Option<usize> = None;
        let mut kept: Vec<ActionWrapper> = Vec::new();
        let n = self.actions.actions.len();
        let mut k: usize = 0;
        while k < n
            invariant
                k <= n,
                n == acts.len(),
                acts == old(self).actions.actions@,
                dc0 == *old(self),
                sh0 == *old(shared),
                dc0.actions_ok(),
                current == dc0.current_position(),
                self.actions.actions@ == acts,
                ({
                    let run = run_actions(dc0, sh0, acts, k as int, current as int);
                    &&& forall|i: int|
                        0 <= i < 2 ==> #[trigger] self.drives[i] == (Drive {
                            phase160: run.phases[i],
                            status: run.statuses[i],
                            ..dc0.drives[i]
                        })
                    &&& forall|i: int|
                        0 <= i < 2 ==> #[trigger] shared.drives[i] == (crate::shared::SharedDrive {
                            phase_160: run.shared_phases[i],
                            ..sh0.drives[i]
                        })
                    &&& *shared == (Shared { drives: shared.drives, ..sh0 })
                    &&& self.messages@ == dc0.messages@ + run.messages
                    &&& new_bit_position == run.position
                    &&& run.phases.len() == 2 && run.statuses.len() == 2 && run.shared_phases.len() == 2
                }),
                kept@ == kept_actions(acts, k as int),
                *self == (DiskController { drives: self.drives, messages: self.messages, ..dc0 }),
            decreases n - k,
        {
            let wrapper = self.actions.actions[k];
            proof {
                assert(action_ok(dc0, acts[k as int], current as int));
            }
            let ghost run0 = run_actions(dc0, sh0, acts, k as int, current as int);
            if wrapper.wait == 0 {
                match wrapper.action {
                    CycleAction::UpdatePhase(v) => {
                        let di = v.drive_index;
                        self.drives[di].set_phase_160(v.phase_160);
                        match &self.drives[di].disk {
                            Some(disk) => {
                                let old_phase = self.drives[di].get_phase_160();
                                let new_phase = v.phase_160;
                                let old_length = disk.get_stream_len(old_phase);
                                let new_length = disk.get_stream_len(new_phase);
                                new_bit_position = Some((current * new_length / old_length) % new_length);
                            },
                            None => {},
                        }
                        shared.set_phase_160(di, #[verifier::truncate] (v.phase_160 as u8));
                    },
                    CycleAction::MotorOff(v) => {
                        if !wrapper.has_run {
                            let di = v.drive_index;
                            let before = self.drives[di].status;
                            self.drives[di].turn_off();
                            let after = self.drives[di].status;
                            if before != after {
                                self.messages.push(ToUi::DriveMotorStatus(self.drives[di].drive_number, after));
                            }
                            proof {
                                assert(self.messages@ =~= dc0.messages@ + run0.messages + motor_message(
                                    dc0.drives[di as int].drive_number,
                                    before,
                                    after,
                                ));
                            }
                        }
                    },
                }
            } else if !wrapper.has_run {
                kept.push(ActionWrapper { wait: wrapper.wait - 1, ..wrapper });
            }
            proof {
                let run1 = run_actions(dc0, sh0, acts, k + 1, current as int);
                assert(run1 == run_action(dc0, run0, acts[k as int], current as int));
                assert forall|i: int| 0 <= i < 2 implies #[trigger] self.drives[i] == (Drive {
                    phase160: run1.phases[i],
                    status: run1.statuses[i],
                    ..dc0.drives[i]
                }) by {}
                assert forall|i: int| 0 <= i < 2 implies #[trigger] shared.drives[i] == (crate::shared::SharedDrive {
                    phase_160: run1.shared_phases[i],
                    ..sh0.drives[i]
                }) by {}
                assert(self.messages@ =~= dc0.messages@ + run1.messages);
            }
            k += 1;
        }
        if let Some(nbp) = new_bit_position {
            self.set_current_bit_position(nbp);
        }
        self.actions.actions = kept;
    }
}

impl DiskController {
    /// The head of the selected drive's disk, if there is one, can be read at
    /// its quarter-track; for the bit strategies, the motor must turn.
    pub open spec fn pulse_ok(&self) -> bool {
        let drive = self.drives[self.drive_index as int];
        &&& self.drive_index < 2
        &&& self.lss.wf()
        &&& (NIBBLE_STRATEGY == NibbleStrategy::Lss && self.lss.reads(self.q6, self.q7) && drive.disk is Some
            ==> drive.disk->0.readable(drive.phase160 as int))
    }

    /// `self` is `old` after one pulse of the sequencer.
    pub open spec fn pulsed(&self, old: DiskController) -> bool {
        let di = old.drive_index as int;
        let d0 = old.drives[di];
        let d1 = self.drives[di];
        let reads = old.lss.reads(old.q6, old.q7);
        &&& self.drives[1 - di] == old.drives[1 - di]
        &&& d1 == (Drive { disk: d1.disk, ..d0 })
        &&& self.latch == self.lss.latch
        &&& self.clock == (if old.clock == u128::MAX { 0 } else { (old.clock + 1) as u128 })
        &&& *self == (DiskController { drives: self.drives, lss: self.lss, latch: self.latch, clock: self.clock, ..old })
        &&& match d0.disk {
            None => d1.disk is None && self.lss == old.lss,
            Some(disk) => {
                let s = disk.streams().stream_at(d0.phase160 as int);
                &&& d1.disk is Some
                &&& d1.disk->0.image == disk.image
                &&& d1.disk->0.bit_position == (if reads {
                    ((disk.bit_position + 1) % (s.bits@.len() as int)) as usize
                } else {
                    disk.bit_position
                })
                &&& exists|bit: u8, noise: u8|
                    {
                        &&& noise <= 1
                        &&& (reads && !s.random ==> bit == s.bits@[disk.bit_position as int])
                        &&& (reads && s.random ==> bit <= 1)
                        &&& self.lss == #[trigger] old.lss.stepped(old.q6, old.q7, reads, bit, noise)
                    }
            },
        }
    }

    /// One pulse of the controller's clock, with the logic state sequencer.
    fn pulse(&mut self)
        requires
            old(self).pulse_ok(),
        ensures
            final(self).pulsed(*old(self)),
            final(self).lss.wf(),
    {
        let di = self.drive_index;
        self.lss.on_pulse(self.q6, self.q7, true, &mut self.drives[di]);
        self.latch = self.lss.latch;
        self.clock = self.clock.wrapping_add(1);
    }

    /// What a step needs: the deferred actions can run (every other step)
    /// and the head can then be read.
    pub open spec fn step_ok(&self, sh: Shared) -> bool {
        &&& self.lss.wf()
        &&& self.drive_index < 2
        &&& if self.clock % 2 == 0 {
            &&& self.actions_ok()
            &&& forall|mid: DiskController, shm: Shared|
                #[trigger] mid.actions_ran(*self, sh, shm) ==> mid.pulse_ok()
        } else {
            self.pulse_ok()
        }
    }

    /// One step of the controller, at twice the CPU's speed: every other step
    /// runs the deferred actions, then the sequencer is pulsed.
    pub fn step(&mut self, shared: &mut Shared)
        requires
            old(self).step_ok(*old(shared)),
        ensures
            old(self).clock % 2 == 0 ==> exists|mid: DiskController|
                #[trigger] mid.actions_ran(*old(self), *old(shared), *final(shared)) && final(self).pulsed(mid),
            old(self).clock % 2 != 0 ==> final(self).pulsed(*old(self)) && *final(shared) == *old(shared),
            final(self).lss.wf(),
    {
        if self.clock % 2 == 0 {
            self.execute_actions(shared);
        }
        let ghost mid = *self;
        self.pulse();
        proof {
            if old(self).clock % 2 == 0 {
                assert(mid.actions_ran(*old(self), *old(shared), *shared));
            }
        }
    }
}

impl DiskController {
    /// The bit under the head of the selected drive (0 with no disk). The
    /// head is read from a copy of the disk, so it does not move.
    pub fn next_bit(&self) -> (r: u8)
        requires
            self.drive_index < 2,
            self.drives[self.drive_index as int].disk is Some ==> self.drives[self.drive_index as int].disk->0.readable(
                self.drives[self.drive_index as int].phase160 as int,
            ),
        ensures
            match self.drives[self.drive_index as int].disk {
                None => r == 0,
                Some(d) => {
                    let s = d.streams().stream_at(self.drives[self.drive_index as int].phase160 as int);
                    &&& (!s.random ==> r == s.bits@[d.bit_position as int])
                    &&& (s.random ==> r <= 1)
                },
            },
    {
        let di = self.drive_index;
        match &self.drives[di].disk {
            Some(d) => d.peek_bit(d.bit_position, self.drives[di].phase160),
            None => 0,
        }
    }

    /// The next bit through a window of the last four bits read: with no 1
    /// among them, the head reads noise.
    pub fn next_bit_with_window(&mut self) -> (r: u8)
        requires
            old(self).drive_index < 2,
            old(self).drives[old(self).drive_index as int].disk is Some ==> old(self).drives[old(
                self,
            ).drive_index as int].disk->0.readable(old(self).drives[old(self).drive_index as int].phase160 as int),
        ensures
            exists|bit: u8|
                {
                    let hw = ((old(self).head_window << 1u8) | bit) as u8;
                    &&& (old(self).drives[old(self).drive_index as int].disk is None ==> bit == 0)
                    &&& final(self).head_window == hw
                    &&& (hw & 0x0f != 0 ==> r == (hw & 0x02) >> 1u8)
                    &&& (hw & 0x0f == 0 ==> r <= 1)
                    &&& #[trigger] old(self).bit_read(bit)
                },
            *final(self) == (DiskController { head_window: final(self).head_window, ..*old(self) }),
    {
        let bit = self.next_bit();
        proof {
            assert(self.bit_read(bit));
        }
        self.head_window = (self.head_window << 1u8) | bit;
        let r = if self.head_window & 0x0f != 0 {
            (self.head_window & 0x02) >> 1u8
        } else {
            noise_bit()
        };
        proof {
            assert(old(self).bit_read(bit));
        }
        r
    }

    /// `bit` is what the head of the selected drive reads.
    pub open spec fn bit_read(&self, bit: u8) -> bool {
        match self.drives[self.drive_index as int].disk {
            None => bit == 0,
            Some(d) => {
                let s = d.streams().stream_at(self.drives[self.drive_index as int].phase160 as int);
                &&& (!s.random ==> bit == s.bits@[d.bit_position as int])
                &&& (s.random ==> bit <= 1)
            },
        }
    }

    /// Eight bits read into a byte, which goes through the address field
    /// reader.
    pub fn next_byte(&mut self, shared: &mut Shared) -> (r: u8)
        requires
            old(self).drive_index < 2,
            old(self).drives[old(self).drive_index as int].disk is Some ==> old(self).drives[old(
                self,
            ).drive_index as int].disk->0.readable(old(self).drives[old(self).drive_index as int].phase160 as int),
        ensures
            final(self).sector_read == sector_read_next(old(self).sector_read, r),
            completes_address(old(self).sector_read, r) ==> final(shared).sector_set(
                *old(shared),
                old(self).drive_index as int,
                final(self).sector_read.sector,
            ),
            !completes_address(old(self).sector_read, r) ==> *final(shared) == *old(shared),
            *final(self) == (DiskController { sector_read: final(self).sector_read, ..*old(self) }),
            old(self).drives[old(self).drive_index as int].disk is None ==> r == 0,
    {
        let mut result: u8 = 0;
        let mut count: u8 = 0;
        while count < 8
            invariant
                count <= 8,
                *self == *old(self),
                self.drive_index < 2,
                self.drives[self.drive_index as int].disk is Some ==> self.drives[self.drive_index as int].disk->0.readable(
                    self.drives[self.drive_index as int].phase160 as int,
                ),
                self.drives[self.drive_index as int].disk is None ==> result == 0,
            decreases 8 - count,
        {
            let b = self.next_bit();
            proof {
                if self.drives[self.drive_index as int].disk is None {
                    assert(((result << 1u8) | b) == 0u8) by (bit_vector)
                        requires
                            result == 0,
                            b == 0,
                    ;
                }
            }
            result = (result << 1u8) | b;
            count += 1;
        }
        let di = self.drive_index;
        self.sector_read.read_byte(di, result, shared);
        result
    }

    /// Put the disk read from a file in drive `drive_number`: `loaded` is
    /// `None` when the file could not be read, else what reading it gave.
    /// The shared state and the user interface learn of the change.
    pub fn load_disk(
        &mut self,
        shared: &mut Shared,
        drive_number: usize,
        disk_info: DiskInfo,
        loaded: Option<Result<Disk, String>>,
    )
        requires
            drive_number < 2,
        ensures
            match loaded {
                None => {
                    &&& final(shared).drive_set(*old(shared), drive_number as int, None)
                    &&& final(self).messages@ == old(self).messages@.push(ToUi::DiskInserted(drive_number, None))
                    &&& *final(self) == (DiskController { messages: final(self).messages, ..*old(self) })
                },
                Some(Ok(disk)) => {
                    &&& final(shared).drives[drive_number as int].disk_info is Some
                    &&& final(shared).drives[drive_number as int].disk_info->0.same_as(disk_info)
                    &&& final(shared).drives[drive_number as int].sector == old(shared).drives[drive_number as int].sector
                    &&& final(shared).drives[drive_number as int].phase_160 == old(shared).drives[drive_number as int].phase_160
                    &&& final(shared).drives[1 - drive_number] == old(shared).drives[1 - drive_number]
                    &&& *final(shared) == (Shared { drives: final(shared).drives, ..*old(shared) })
                    &&& final(self).drives[drive_number as int] == (Drive { disk: Some(disk), ..old(self).drives[drive_number as int] })
                    &&& final(self).drives[1 - drive_number] == old(self).drives[1 - drive_number]
                    &&& final(self).messages@.len() == old(self).messages@.len() + 2
                    &&& final(self).messages@.take(old(self).messages@.len() as int) == old(self).messages@
                    &&& inserted(final(self).messages@[old(self).messages@.len() as int], drive_number, disk_info)
                    &&& inserted(final(self).messages@[old(self).messages@.len() as int + 1], drive_number, disk_info)
                    &&& *final(self) == (DiskController { drives: final(self).drives, messages: final(self).messages, ..*old(self) })
                },
                Some(Err(_)) => {
                    &&& final(shared).drive_set(*old(shared), drive_number as int, None)
                    &&& final(self).messages@.len() == old(self).messages@.len() + 2
                    &&& final(self).messages@.take(old(self).messages@.len() as int) == old(self).messages@
                    &&& inserted(final(self).messages@[old(self).messages@.len() as int], drive_number, disk_info)
                    &&& final(self).messages@[old(self).messages@.len() as int + 1] == ToUi::DiskInserted(drive_number, None)
                    &&& *final(self) == (DiskController { messages: final(self).messages, ..*old(self) })
                },
            },
    {
        match loaded {
            None => {
                self.on_new_disk_info(shared, drive_number, None);
            },
            Some(result) => {
                self.on_new_disk_info(shared, drive_number, Some(disk_info.copy()));
                match result {
                    Ok(disk) => {
                        self.drives[drive_number].disk = Some(disk);
                        self.on_new_disk_info(shared, drive_number, Some(disk_info));
                    },
                    Err(_) => {
                        self.on_new_disk_info(shared, drive_number, None);
                    },
                }
            },
        }
    }

    /// Tell the shared state and the user interface what drive `drive_number` holds.
    pub fn on_new_disk_info(&mut self, shared: &mut Shared, drive_number: usize, disk_info: Option<DiskInfo>)
        requires
            drive_number < 2,
        ensures
            final(shared).drives[drive_number as int].disk_info is Some <==> disk_info is Some,
            disk_info matches Some(d) ==> final(shared).drives[drive_number as int].disk_info->0.same_as(d),
            final(shared).drives[drive_number as int].sector == old(shared).drives[drive_number as int].sector,
            final(shared).drives[drive_number as int].phase_160 == old(shared).drives[drive_number as int].phase_160,
            final(shared).drives[1 - drive_number] == old(shared).drives[1 - drive_number],
            *final(shared) == (Shared { drives: final(shared).drives, ..*old(shared) }),
            disk_info is None ==> final(shared).drive_set(*old(shared), drive_number as int, None),
            final(self).messages@ == old(self).messages@.push(ToUi::DiskInserted(drive_number, disk_info)),
            *final(self) == (DiskController { messages: final(self).messages, ..*old(self) }),
    {
        let copy = match &disk_info {
            Some(d) => Some(d.copy()),
            None => None,
        };
        shared.set_drive(drive_number, copy);
        self.messages.push(ToUi::DiskInserted(drive_number, disk_info));
    }

    /// What the two drives hold (copies).
    pub fn disks(&self) -> (r: [Option<DiskInfo>; 2])
        ensures
            forall|i: int|
                0 <= i < 2 ==> (#[trigger] r[i] is Some <==> self.drives[i].disk is Some),
            forall|i: int|
                0 <= i < 2 ==> (#[trigger] r[i] matches Some(d) ==> d.same_as(self.drives[i].disk->0.image.info())),
    {
        let d0 = match &self.drives[0].disk {
            Some(d) => Some(d.disk_info()),
            None => None,
        };
        let d1 = match &self.drives[1].disk {
            Some(d) => Some(d.disk_info()),
            None => None,
        };
        [d0, d1]
    }

    /// The disk in the left drive.
    pub fn left_disk(&self) -> (r: &Option<Disk>)
        ensures
            *r == self.drives[0].disk,
    {
        &self.drives[0].disk
    }

    /// Swap the two drives (each keeps its number), and tell what they now hold.
    pub fn swap_disks(&mut self, shared: &mut Shared)
        ensures
            final(self).drives[0] == (Drive { drive_number: 0, ..old(self).drives[1] }),
            final(self).drives[1] == (Drive { drive_number: 1, ..old(self).drives[0] }),
            final(self).messages@.len() == old(self).messages@.len() + 2,
            final(self).messages@.take(old(self).messages@.len() as int) == old(self).messages@,
            final(self).messages@[old(self).messages@.len() as int] matches ToUi::DiskInserted(0, d)
                && (d is Some <==> old(self).drives[1].disk is Some)
                && (d matches Some(e) ==> e.same_as(old(self).drives[1].disk->0.image.info())),
            final(self).messages@[old(self).messages@.len() as int + 1] matches ToUi::DiskInserted(1, d)
                && (d is Some <==> old(self).drives[0].disk is Some)
                && (d matches Some(e) ==> e.same_as(old(self).drives[0].disk->0.image.info())),
            final(shared).drives[0].disk_info is Some <==> old(self).drives[1].disk is Some,
            final(shared).drives[0].disk_info matches Some(e) ==> e.same_as(old(self).drives[1].disk->0.image.info()),
            final(shared).drives[1].disk_info is Some <==> old(self).drives[0].disk is Some,
            final(shared).drives[1].disk_info matches Some(e) ==> e.same_as(old(self).drives[0].disk->0.image.info()),
            *final(shared) == (Shared { drives: final(shared).drives, ..*old(shared) }),
            *final(self) == (DiskController { drives: final(self).drives, messages: final(self).messages, ..*old(self) }),
    {
        let info0 = match &self.drives[0].disk {
            Some(d) => Some(d.disk_info()),
            None => None,
        };
        let info1 = match &self.drives[1].disk {
            Some(d) => Some(d.disk_info()),
            None => None,
        };
        let mut tmp = Drive::new(0, None);
        std::mem::swap(&mut tmp, &mut self.drives[0]);
        std::mem::swap(&mut self.drives[1], &mut tmp);
        self.drives[0] = tmp;
        self.drives[0].drive_number = 0;
        self.on_new_disk_info(shared, 0, info1);
        self.drives[1].drive_number = 1;
        let ghost given = info0;
        self.on_new_disk_info(shared, 1, info0);
        proof {
            if let Some(d) = given {
                let e = shared.drives[1].disk_info->0;
                let o = old(self).drives[0].disk->0.image.info();
                assert forall|k: int| 0 <= k < e.map@.len() implies #[trigger] e.map@[k].0@ == o.map@[k].0@
                    && e.map@[k].1@ == o.map@[k].1@ by {
                    assert(e.map@[k].0@ == d.map@[k].0@);
                }
            }
        }
    }
}

/// `m` tells that drive `n` now holds the disk `d`.
pub open spec fn inserted(m: ToUi, n: usize, d: DiskInfo) -> bool {
    match m {
        ToUi::DiskInserted(k, Some(e)) => k == n && e.same_as(d),
        _ => false,
    }
}

} // verus!

