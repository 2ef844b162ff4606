use apple2::config_file::{Breakpoint, ConfigFile};
use apple2::constants::{DEFAULT_MAGNIFICATION, DEFAULT_SPEED_HZ};
use apple2::roms::RomType;

#[test]
fn default_config_values() {
    let c = ConfigFile::default();
    assert_eq!(c.magnification(), DEFAULT_MAGNIFICATION);
    assert_eq!(c.emulator_speed_hz(), DEFAULT_SPEED_HZ);
    assert_eq!(c.rom_type(), RomType::Apple2Enhanced);
    assert_eq!(c.hard_drive_1(), None);
    assert_eq!(c.hard_drive_2(), None);
    assert!(c.breakpoints().is_empty());
}

#[test]
fn magnification_falls_back_to_default() {
    let mut c = ConfigFile::default();
    c.magnification = None;
    assert_eq!(c.magnification(), DEFAULT_MAGNIFICATION);
    c.magnification = Some(2);
    assert_eq!(c.magnification(), 2);
    c.rom_type = None;
    assert_eq!(c.rom_type(), RomType::Apple2Enhanced);
}

#[test]
fn add_breakpoint_parses_hexadecimal() {
    let mut c = ConfigFile::default();
    assert!(c.add_breakpoint("C65E".to_string()));
    assert!(c.add_breakpoint("+1f".to_string()));
    assert_eq!(
        c.breakpoints().clone(),
        vec![Breakpoint { address: 0xc65e, enabled: true }, Breakpoint { address: 0x1f, enabled: true }]
    );
    assert!(c.breakpoints_hash.contains(&0xc65e));
    assert!(c.breakpoints_hash.contains(&0x1f));
    assert_eq!(c.breakpoints_hash.len(), 2);
}

#[test]
fn add_breakpoint_refuses_what_is_not_an_address() {
    let mut c = ConfigFile::default();
    assert!(!c.add_breakpoint("".to_string()));
    assert!(!c.add_breakpoint("xyz".to_string()));
    assert!(!c.add_breakpoint("10000".to_string()));
    assert!(!c.add_breakpoint("-1".to_string()));
    assert!(!c.add_breakpoint(" 12".to_string()));
    assert!(c.breakpoints().is_empty());
    assert!(c.breakpoints_hash.is_empty());
}

#[test]
fn add_then_delete_breakpoint_restores_breakpoints() {
    let mut c = ConfigFile::default();
    assert!(c.add_breakpoint("300".to_string()));
    let before = c.breakpoints().clone();
    assert!(c.add_breakpoint("FFFF".to_string()));
    c.delete_breakpoint(0xffff);
    assert_eq!(c.breakpoints().clone(), before);
    assert!(!c.breakpoints_hash.contains(&0xffff));
    assert!(c.breakpoints_hash.contains(&0x300));
}

#[test]
fn delete_breakpoint_removes_only_the_first() {
    let mut c = ConfigFile::default();
    c.add_breakpoint("10".to_string());
    c.add_breakpoint("20".to_string());
    c.add_breakpoint("10".to_string());
    c.delete_breakpoint(0x10);
    assert_eq!(
        c.breakpoints().clone(),
        vec![Breakpoint { address: 0x20, enabled: true }, Breakpoint { address: 0x10, enabled: true }]
    );
    assert!(c.breakpoints_hash.contains(&0x10));
    c.delete_breakpoint(0x1234);
    assert_eq!(c.breakpoints().len(), 2);
}

#[test]
fn set_drive_and_tab() {
    let mut c = ConfigFile::default();
    c.set_drive(false, 0, Some("a.woz".to_string()));
    c.set_drive(false, 1, Some("b.dsk".to_string()));
    c.set_drive(true, 0, Some("c.hdv".to_string()));
    c.set_drive(true, 1, Some("d.hdv".to_string()));
    assert_eq!(c.drive_1(), Some("a.woz".to_string()));
    assert_eq!(c.drive_2(), Some("b.dsk".to_string()));
    assert_eq!(c.hard_drive_1(), Some("c.hdv".to_string()));
    assert_eq!(c.hard_drive_2(), Some("d.hdv".to_string()));
    c.set_drive(true, 0, None);
    assert_eq!(c.hard_drive_1(), None);
    assert_eq!(c.drive_1(), Some("a.woz".to_string()));
    c.set_tab(3);
    assert_eq!(c.tab, 3);
    c.set_disk_directories(vec!["/disks".to_string()]);
    assert_eq!(c.disk_directories().clone(), vec!["/disks".to_string()]);
}
