use vstd::prelude::*;
use crate::disk::disk_info::DiskInfo;
use crate::disk::drive::DriveStatus;

verus! {

/// What the machine tells its user interface.
pub enum ToUi {
    /// A different drive was selected (0 or 1).
    DiskSelected(usize),
    /// The keyboard is ready for another key.
    KeyboardStrobe,
    /// The motor of a drive (0 or 1) changed state.
    DriveMotorStatus(usize, DriveStatus),
    /// The RGB mode changed.
    RgbModeUpdate(u8),
    /// The breakpoint at this address was hit.
    BreakpointWasHit(u16),
    /// A disk was inserted in a drive (or the drive was emptied).
    DiskInserted(usize, Option<DiskInfo>),
    /// A disk was inserted in a hard drive (or the drive was emptied).
    HardDriveInserted(usize, Option<DiskInfo>),
    /// A quarter-track of a drive is read for the first time.
    FirstRead(usize, u8),
    Exit,
}

/// Bytes to store in memory from `address` on.
pub struct SetMemoryMsg {
    pub address: u16,
    pub bytes: Vec<u8>,
}

/// What the CPU is asked to do.
#[derive(Clone, Copy, Debug, PartialEq, Eq, Structural)]
pub enum CpuStateMsg {
    Running,
    Paused,
    Step,
    Rebooting,
    Exit,
}

/// Which traces to turn on or off (`None`: leave as it is).
pub struct TraceStatusMsg {
    pub debug_asm: Option<bool>,
    pub trace_file: Option<bool>,
    pub trace_file_csv: Option<String>,
    pub trace_file_asm: Option<String>,
    pub csv: Option<bool>,
}

/// Disassemble memory from `from` to `to` into the file `filename`.
pub struct GenerateDisassemblyMsg {
    pub from: u16,
    pub to: u16,
    pub filename: String,
}

} // verus!
