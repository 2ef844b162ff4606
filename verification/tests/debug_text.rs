use apple2::debug::{hex_dump, hex_dump_at, hex_dump_nibbles};
use apple2::disk::bit_stream::{AreaType, Nibble};
use apple2::ui::disks_tab::{is_disk_file, DisksTab, DisplayedDisk};

#[test]
fn dump_of_a_few_bytes() {
    assert_eq!(hex_dump(&[1, 2, 0xab]), "0000 | 01 02 AB \n====\n");
    assert_eq!(hex_dump(&[]), "0000 | \n====\n");
}

#[test]
fn dump_goes_to_a_new_line_every_16_bytes() {
    let bytes: Vec<u8> = (0..18u8).collect();
    let text = hex_dump(&bytes);
    assert_eq!(
        text,
        "0000 | 00 01 02 03 04 05 06 07 08 09 0A 0B 0C 0D 0E 0F \n0010 | 10 11 \n====\n"
    );
}

#[test]
fn dump_at_an_address() {
    let bytes: Vec<u8> = (0..40u8).collect();
    assert_eq!(hex_dump_at(&bytes, 0x20, 2), "0020 | 20 21 22 \n====\n");
    assert_eq!(hex_dump_at(&bytes, 0x26, 3), "0026 | 26 27 \n====\n");
}

#[test]
fn dump_of_nibbles() {
    let n1 = Nibble { value: 0xd5, sync_bits: 0, area_type: AreaType::Unknown };
    let n2 = Nibble { value: 0xff, sync_bits: 2, area_type: AreaType::Unknown };
    let n3 = Nibble { value: 0x96, sync_bits: 123, area_type: AreaType::Unknown };
    assert_eq!(hex_dump_nibbles(&[n1, n2, n3]), "0000 | D5    FF^02 96^123 \n====\n");
}

fn disk(name: &str) -> DisplayedDisk {
    DisplayedDisk { file_name: name.to_string(), path: format!("/d/{name}") }
}

fn names(tab: &DisksTab) -> Vec<String> {
    tab.displayed_disks().iter().map(|d| d.file_name.clone()).collect()
}

#[test]
fn disk_files_by_suffix() {
    assert!(is_disk_file("Karateka.WOZ"));
    assert!(is_disk_file("dos.dsk"));
    assert!(is_disk_file("total.hdv"));
    assert!(!is_disk_file("readme.txt"));
}

#[test]
fn disks_are_sorted_deduplicated_and_filtered() {
    let mut tab = DisksTab::default();
    tab.update_directory(
        Some("/d".to_string()),
        vec![disk("zork.dsk"), disk("Archon.woz"), disk("choplifter.woz"), disk("zork.dsk"), disk("apple.dsk")],
    );
    assert_eq!(names(&tab), vec!["apple.dsk", "Archon.woz", "choplifter.woz", "zork.dsk"]);
    tab.update_filter("o".to_string());
    assert_eq!(names(&tab), vec!["Archon.woz", "choplifter.woz", "zork.dsk"]);
    tab.update_filter("woz".to_string());
    assert_eq!(names(&tab), vec!["Archon.woz", "choplifter.woz"]);
    tab.update_filter("".to_string());
    assert_eq!(names(&tab).len(), 4);
    tab.update_directory(None, vec![disk("x.dsk")]);
    assert!(names(&tab).is_empty());
}

use apple2::ui::disks_tab::{disk_name_color, is_buggy, NameColor};

#[test]
fn buggy_disks_and_name_colors() {
    assert!(is_buggy("Stargate (1983).woz"));
    assert!(is_buggy("pest patrol.dsk"));
    assert!(is_buggy("The DOS 3.2 master.dsk"));
    assert!(!is_buggy("Zork I.woz"));
    assert_eq!(disk_name_color("Seafox.woz"), NameColor::Red);
    assert_eq!(disk_name_color("Zork I.WOZ"), NameColor::Yellow);
    assert_eq!(disk_name_color("Zork I.dsk"), NameColor::LightBlue);
}
