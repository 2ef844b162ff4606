use vstd::prelude::*;
use crate::disk::disk::Disk;

verus! {

/// The state of a drive's motor.
#[derive(Clone, Copy, Debug, PartialEq, Eq, Structural)]
pub enum DriveStatus {
    On,
    Off,
    SpinningDown,
}

/// The label of a motor state, padded to 13 characters.
pub open spec fn status_label(s: DriveStatus) -> Seq<char> {
    match s {
        DriveStatus::On => "On           "@,
        DriveStatus::Off => "Off          "@,
        DriveStatus::SpinningDown => "Spinning down"@,
    }
}

impl DriveStatus {
    pub fn default() -> (r: DriveStatus)
        ensures
            r == DriveStatus::Off,
    {
        DriveStatus::Off
    }

    /// The label of this state, padded to 13 characters.
    pub fn label(&self) -> (r: &'static str)
        ensures
            r@ == status_label(*self),
    {
        match self {
            DriveStatus::On => "On           ",
            DriveStatus::Off => "Off          ",
            DriveStatus::SpinningDown => "Spinning down",
        }
    }
}

/// A floppy drive: the disk in it, its motor and the position of its head.
pub struct Drive {
    /// 0 or 1
    pub drive_number: usize,
    pub disk: Option<Disk>,
    pub status: DriveStatus,
    pub phase160: usize,
}

impl Drive {
    pub fn new(drive_number: usize, disk: Option<Disk>) -> (r: Drive)
        ensures
            r.drive_number == drive_number,
            r.disk == disk,
            r.status == DriveStatus::Off,
            r.phase160 == 0,
    {
        Drive { drive_number, disk, status: DriveStatus::Off, phase160: 0 }
    }

    /// The motor is on or spinning down.
    pub fn is_on(&self) -> (r: bool)
        ensures
            r == (self.status != DriveStatus::Off),
    {
        self.status != DriveStatus::Off
    }

    fn set_status(&mut self, status: DriveStatus)
        ensures
            *final(self) == (Drive { status, ..*old(self) }),
    {
        self.status = status;
    }

    pub fn set_phase_160(&mut self, phase_160: usize)
        ensures
            *final(self) == (Drive { phase160: phase_160, ..*old(self) }),
    {
        self.phase160 = phase_160;
    }

    pub fn get_phase_160(&self) -> (r: usize)
        ensures
            r == self.phase160,
    {
        self.phase160
    }

    pub fn turn_on(&mut self)
        ensures
            *final(self) == (Drive { status: DriveStatus::On, ..*old(self) }),
    {
        self.set_status(DriveStatus::On);
    }

    /// Turn the motor off: a running motor first spins down (the result is then
    /// true: the caller has to wait), a spinning down one stops.
    pub fn turn_off(&mut self) -> (r: bool)
        ensures
            r == (old(self).status == DriveStatus::On),
            *final(self) == (Drive {
                status: match old(self).status {
                    DriveStatus::On => DriveStatus::SpinningDown,
                    _ => DriveStatus::Off,
                },
                ..*old(self)
            }),
    {
        if self.status == DriveStatus::On {
            self.set_status(DriveStatus::SpinningDown);
            true
        } else if self.status == DriveStatus::SpinningDown {
            self.set_status(DriveStatus::Off);
            false
        } else {
            false
        }
    }
}

} // verus!
