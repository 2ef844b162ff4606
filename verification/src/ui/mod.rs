pub mod hires_screen;
pub mod soft_switches;
pub mod keyboard;
pub mod debugger;
pub mod disks_tab;
