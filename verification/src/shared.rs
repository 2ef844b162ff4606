use vstd::prelude::*;
use crate::disk::disk_info::{DiskInfo, last_component};
use crate::joystick::{Joystick, MULT, paddle_read};

verus! {

/// A click of the speaker: the CPU cycle and the time (in microseconds) when
/// it happened.
#[derive(Clone, Copy, Debug, PartialEq, Eq, Structural)]
pub struct SpeakerEvent {
    pub cycle: u64,
    pub timestamp: u64,
}

/// What the emulator shares about a floppy drive.
pub struct SharedDrive {
    pub disk_info: Option<DiskInfo>,
    pub sector: u8,
    pub phase_160: u8,
}

/// What the emulator shares about a hard drive.
pub struct SharedHardDrive {
    pub disk_info: Option<DiskInfo>,
    pub block_number: u16,
}

/// State that the emulator shares between the machine and its user interface.
pub struct Shared {
    pub drives: [SharedDrive; 2],
    pub hard_drives: [SharedHardDrive; 2],
    pub breakpoint_was_hit: bool,
    pub speaker_events: Vec<SpeakerEvent>,
    pub show_drives: bool,
    pub joystick: Joystick,
    pub controller_values: [u8; 4],
    pub controller_buttons: [bool; 4],
}

/// The name shown for an optional disk: empty when there is none.
pub open spec fn optional_name(d: Option<DiskInfo>) -> Seq<char> {
    match d {
        Some(di) => di.spec_name(),
        None => Seq::empty(),
    }
}

impl Shared {
    /// `self` is `old` with the sector under the head of drive `i` set to `sector`.
    pub open spec fn sector_set(self, old: Shared, i: int, sector: u8) -> bool {
        &&& self.drives[i].sector == sector
        &&& self.drives[i].phase_160 == old.drives[i].phase_160
        &&& self.drives[i].disk_info == old.drives[i].disk_info
        &&& self.drives[1 - i] == old.drives[1 - i]
        &&& self == (Shared { drives: self.drives, ..old })
    }

    /// `self` is `old` with the quarter-track of drive `i` set to `phase`.
    pub open spec fn phase_set(self, old: Shared, i: int, phase: u8) -> bool {
        &&& self.drives[i].phase_160 == phase
        &&& self.drives[i].sector == old.drives[i].sector
        &&& self.drives[i].disk_info == old.drives[i].disk_info
        &&& self.drives[1 - i] == old.drives[1 - i]
        &&& self == (Shared { drives: self.drives, ..old })
    }

    /// `self` is `old` with the disk of drive `i` set to `d`.
    pub open spec fn drive_set(self, old: Shared, i: int, d: Option<DiskInfo>) -> bool {
        &&& self.drives[i].disk_info == d
        &&& self.drives[i].sector == old.drives[i].sector
        &&& self.drives[i].phase_160 == old.drives[i].phase_160
        &&& self.drives[1 - i] == old.drives[1 - i]
        &&& self == (Shared { drives: self.drives, ..old })
    }

    pub fn new() -> (r: Shared)
        ensures
            r.drives[0].disk_info is None && r.drives[1].disk_info is None,
            r.drives[0].sector == 0 && r.drives[1].sector == 0,
            r.drives[0].phase_160 == 0 && r.drives[1].phase_160 == 0,
            r.hard_drives[0].disk_info is None && r.hard_drives[1].disk_info is None,
            r.hard_drives[0].block_number == 0 && r.hard_drives[1].block_number == 0,
            !r.breakpoint_was_hit,
            r.speaker_events@.len() == 0,
            r.show_drives,
            r.joystick.reset_cycles@ == seq![0u64, 0, 0, 0],
            r.controller_values@ == seq![0u8, 0, 0, 0],
            r.controller_buttons@ == seq![false, false, false, false],
    {
        Shared {
            drives: [
                SharedDrive { disk_info: None, sector: 0, phase_160: 0 },
                SharedDrive { disk_info: None, sector: 0, phase_160: 0 },
            ],
            hard_drives: [
                SharedHardDrive { disk_info: None, block_number: 0 },
                SharedHardDrive { disk_info: None, block_number: 0 },
            ],
            breakpoint_was_hit: false,
            speaker_events: Vec::new(),
            show_drives: true,
            joystick: Joystick::default(),
            controller_values: [0, 0, 0, 0],
            controller_buttons: [false, false, false, false],
        }
    }

    pub fn get_breakpoint_was_hit(&self) -> (r: bool)
        ensures
            r == self.breakpoint_was_hit,
    {
        self.breakpoint_was_hit
    }

    pub fn set_breakpoint_was_hit(&mut self, v: bool)
        ensures
            *final(self) == (Shared { breakpoint_was_hit: v, ..*old(self) }),
    {
        self.breakpoint_was_hit = v;
    }

    pub fn get_phase_160(&self, drive_index: usize) -> (r: u8)
        requires
            drive_index < 2,
        ensures
            r == self.drives[drive_index as int].phase_160,
    {
        self.drives[drive_index].phase_160
    }

    pub fn set_phase_160(&mut self, drive_index: usize, phase_160: u8)
        requires
            drive_index < 2,
        ensures
            final(self).phase_set(*old(self), drive_index as int, phase_160),
    {
        self.drives[drive_index].phase_160 = phase_160;
    }

    /// The track under the head of drive `drive_index`: a quarter of its phase.
    pub fn get_track(&self, drive_index: usize) -> (r: u8)
        requires
            drive_index < 2,
        ensures
            r == self.drives[drive_index as int].phase_160 / 4,
    {
        self.get_phase_160(drive_index) / 4
    }

    pub fn get_block_number(&self, drive_index: usize) -> (r: u16)
        requires
            drive_index < 2,
        ensures
            r == self.hard_drives[drive_index as int].block_number,
    {
        self.hard_drives[drive_index].block_number
    }

    pub fn set_block_number(&mut self, drive_index: usize, n: u16)
        requires
            drive_index < 2,
        ensures
            final(self).hard_drives[drive_index as int].block_number == n,
            final(self).hard_drives[drive_index as int].disk_info == old(self).hard_drives[drive_index as int].disk_info,
            final(self).hard_drives[1 - drive_index] == old(self).hard_drives[1 - drive_index],
            *final(self) == (Shared { hard_drives: final(self).hard_drives, ..*old(self) }),
    {
        self.hard_drives[drive_index].block_number = n;
    }

    pub fn get_sector(&self, drive_index: usize) -> (r: u8)
        requires
            drive_index < 2,
        ensures
            r == self.drives[drive_index as int].sector,
    {
        self.drives[drive_index].sector
    }

    pub fn set_sector(&mut self, drive_index: usize, sector: u8)
        requires
            drive_index < 2,
        ensures
            final(self).sector_set(*old(self), drive_index as int, sector),
    {
        self.drives[drive_index].sector = sector;
    }

    /// The disk in drive `drive_index` (a copy).
    pub fn get_drive(&self, drive_index: usize) -> (r: Option<DiskInfo>)
        requires
            drive_index < 2,
        ensures
            r is None <==> self.drives[drive_index as int].disk_info is None,
            r matches Some(d) ==> d.same_as(self.drives[drive_index as int].disk_info->0),
    {
        match &self.drives[drive_index].disk_info {
            Some(d) => Some(d.copy()),
            None => None,
        }
    }

    pub fn set_drive(&mut self, drive_index: usize, disk_info: Option<DiskInfo>)
        requires
            drive_index < 2,
        ensures
            final(self).drive_set(*old(self), drive_index as int, disk_info),
    {
        self.drives[drive_index].disk_info = disk_info;
    }

    /// The disk in hard drive `drive_index` (a copy).
    pub fn get_hard_drive(&self, drive_index: usize) -> (r: Option<DiskInfo>)
        requires
            drive_index < 2,
        ensures
            r is None <==> self.hard_drives[drive_index as int].disk_info is None,
            r matches Some(d) ==> d.same_as(self.hard_drives[drive_index as int].disk_info->0),
    {
        match &self.hard_drives[drive_index].disk_info {
            Some(d) => Some(d.copy()),
            None => None,
        }
    }

    /// The name of the disk in hard drive `drive_index`, empty if there is none.
    pub fn get_hard_drive_name(&self, drive_index: usize) -> (r: String)
        requires
            drive_index < 2,
        ensures
            r@ == optional_name(self.hard_drives[drive_index as int].disk_info),
    {
        match &self.hard_drives[drive_index].disk_info {
            Some(d) => d.name().to_owned(),
            None => String::new(),
        }
    }

    pub fn set_hard_drive(&mut self, drive_index: usize, disk_info: Option<DiskInfo>)
        requires
            drive_index < 2,
        ensures
            final(self).hard_drives[drive_index as int].disk_info == disk_info,
            final(self).hard_drives[drive_index as int].block_number == old(self).hard_drives[drive_index as int].block_number,
            final(self).hard_drives[1 - drive_index] == old(self).hard_drives[1 - drive_index],
            *final(self) == (Shared { hard_drives: final(self).hard_drives, ..*old(self) }),
    {
        self.hard_drives[drive_index].disk_info = disk_info;
    }

    pub fn add_speaker_event(&mut self, event: SpeakerEvent)
        ensures
            final(self).speaker_events@ == old(self).speaker_events@.push(event),
            *final(self) == (Shared { speaker_events: final(self).speaker_events, ..*old(self) }),
    {
        self.speaker_events.push(event);
    }

    /// The speaker events recorded so far; the record is then emptied.
    pub fn get_speaker_events(&mut self) -> (r: Vec<SpeakerEvent>)
        ensures
            r@ == old(self).speaker_events@,
            final(self).speaker_events@.len() == 0,
            *final(self) == (Shared { speaker_events: final(self).speaker_events, ..*old(self) }),
    {
        let mut result: Vec<SpeakerEvent> = Vec::new();
        std::mem::swap(&mut result, &mut self.speaker_events);
        result
    }

    pub fn get_show_drives(&self) -> (r: bool)
        ensures
            r == self.show_drives,
    {
        self.show_drives
    }

    pub fn set_show_drives(&mut self, b: bool)
        ensures
            *final(self) == (Shared { show_drives: b, ..*old(self) }),
    {
        self.show_drives = b;
    }

    /// Start the paddle timers at `cycle`.
    pub fn reset_joystick(&mut self, cycle: u64)
        ensures
            final(self).joystick.reset_cycles@ == seq![cycle, cycle, cycle, cycle],
            final(self).joystick.reset == old(self).joystick.reset,
            *final(self) == (Shared { joystick: final(self).joystick, ..*old(self) }),
    {
        self.joystick.reset_cycles(cycle);
    }

    /// Read paddle `index` at `cycle` against the controller's current values.
    pub fn get_controller_value(&mut self, index: usize, cycle: u64) -> (r: u8)
        requires
            index < 4,
            old(self).joystick.reset_cycles@[index as int] + 256 * MULT <= u64::MAX,
        ensures
            ({
                let (v, c) = paddle_read(
                    old(self).joystick.reset_cycles@[index as int],
                    cycle,
                    old(self).controller_values@[index as int],
                );
                &&& r == v
                &&& final(self).joystick.reset_cycles@ == old(self).joystick.reset_cycles@.update(index as int, c)
            }),
            final(self).joystick.reset == old(self).joystick.reset,
            *final(self) == (Shared { joystick: final(self).joystick, ..*old(self) }),
    {
        let values = self.controller_values;
        self.joystick.get_value_for_paddle(index, cycle, values)
    }

    pub fn update_controller_raw_values(&mut self, values: [u8; 4])
        ensures
            *final(self) == (Shared { controller_values: values, ..*old(self) }),
    {
        self.controller_values = values;
    }

    pub fn get_controller_raw_values(&self) -> (r: [u8; 4])
        ensures
            r == self.controller_values,
    {
        self.controller_values
    }

    pub fn get_controller_button_value(&self, index: usize) -> (r: bool)
        requires
            index < 4,
        ensures
            r == self.controller_buttons@[index as int],
    {
        self.controller_buttons[index]
    }

    pub fn set_controller_button_value(&mut self, index: usize, v: bool)
        requires
            index < 4,
        ensures
            final(self).controller_buttons@ == old(self).controller_buttons@.update(index as int, v),
            *final(self) == (Shared { controller_buttons: final(self).controller_buttons, ..*old(self) }),
    {
        self.controller_buttons[index] = v;
    }
}

/// The speaker events come out in the order in which they were added: from a
/// state with no events (as after a read), adding `added` one by one and then
/// reading gives `added`, and a read right after that gives none.
pub proof fn lemma_speaker_events_in_order(
    states: Seq<Shared>,
    added: Seq<SpeakerEvent>,
    first_read: Seq<SpeakerEvent>,
    after_read: Shared,
    second_read: Seq<SpeakerEvent>,
)
    requires
        states.len() == added.len() + 1,
        states[0].speaker_events@.len() == 0,
        forall|i: int|
            0 <= i < added.len() ==> #[trigger] states[i + 1].speaker_events@ == states[i].speaker_events@.push(
                added[i],
            ),
        first_read == states.last().speaker_events@,
        after_read.speaker_events@.len() == 0,
        second_read == after_read.speaker_events@,
    ensures
        first_read == added,
        second_read.len() == 0,
{
    lemma_events_prefix(states, added, added.len() as int);
    assert(added.take(added.len() as int) =~= added);
}

proof fn lemma_events_prefix(states: Seq<Shared>, added: Seq<SpeakerEvent>, k: int)
    requires
        states.len() == added.len() + 1,
        0 <= k <= added.len(),
        states[0].speaker_events@.len() == 0,
        forall|i: int|
            0 <= i < added.len() ==> #[trigger] states[i + 1].speaker_events@ == states[i].speaker_events@.push(
                added[i],
            ),
    ensures
        states[k].speaker_events@ == added.take(k),
    decreases k,
{
    if k > 0 {
        lemma_events_prefix(states, added, k - 1);
        assert(states[(k - 1) + 1].speaker_events@ == states[k - 1].speaker_events@.push(added[k - 1]));
        assert(added.take(k - 1).push(added[k - 1]) =~= added.take(k));
    } else {
        assert(states[0].speaker_events@ =~= added.take(0));
    }
}

} // verus!
