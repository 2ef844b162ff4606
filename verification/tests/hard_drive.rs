use apple2::disk::disk_info::DiskInfo;
use apple2::shared::Shared;
use apple2::smartport::SmartPort;

#[test]
fn block_bytes_come_in_order() {
    let mut shared = Shared::new();
    shared.set_hard_drive(0, Some(DiskInfo::n("total.hdv")));
    let mut port = SmartPort::default();
    let content: Vec<u8> = (0..2048u32).map(|i| (i * 13 % 251) as u8).collect();
    port.set_file_content(content.clone());
    for i in 0..512 {
        assert_eq!(port.next_byte(1, &mut shared), Ok(content[512 + i]));
    }
    assert_eq!(shared.get_block_number(0), 1);
    // After the 512th byte, the block starts over.
    assert_eq!(port.next_byte(1, &mut shared), Ok(content[512]));
    // Another block is loaded when it is asked for.
    assert_eq!(port.next_byte(3, &mut shared), Ok(content[1536]));
    assert_eq!(shared.get_block_number(0), 3);
}

#[test]
fn no_byte_from_a_file_not_read() {
    let mut shared = Shared::new();
    shared.set_hard_drive(0, Some(DiskInfo::n("total.hdv")));
    let mut port = SmartPort::default();
    assert_eq!(port.next_byte(0, &mut shared), Err(()));
}
