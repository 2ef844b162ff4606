use apple2::disk::dsk::Dsk;

#[test]
fn test_write8() {
    let mut buffer: Vec<u8> = Vec::new();
    Dsk::write8(&mut buffer, vec![0b1101_1011]);
    let expected: Vec<u8> = vec![1, 1, 0, 1, 1, 0, 1, 1];
    assert_eq!(buffer.len(), expected.len());
    for i in 0..buffer.len() {
        assert_eq!(buffer[i], expected[i]);
    }
}

#[test]
fn test_write_sync() {
    let mut buffer: Vec<u8> = Vec::new();
    Dsk::write_sync(&mut buffer, 2);
    let expected: Vec<u8> = vec![1, 1, 1, 1, 1, 1, 1, 1, 0, 0, 1, 1, 1, 1, 1, 1, 1, 1, 0, 0];
    assert_eq!(buffer.len(), expected.len());
    for i in 0..buffer.len() {
        assert_eq!(buffer[i], expected[i]);
    }
}

const SECTOR: [u8; 256] = [
    0x01, 0xA5, 0x27, 0xC9, 0x09, 0xD0, 0x18, 0xA5, 0x2B, 0x4A, 0x4A, 0x4A, 0x4A, 0x09, 0xC0, 0x85,
    0x3F, 0xA9, 0x5C, 0x85, 0x3E, 0x18, 0xAD, 0xFE, 0x08, 0x6D, 0xFF, 0x08, 0x8D, 0xFE, 0x08, 0xAE,
    0xFF, 0x08, 0x30, 0x15, 0xBD, 0x4D, 0x08, 0x85, 0x3D, 0xCE, 0xFF, 0x08, 0xAD, 0xFE, 0x08, 0x85,
    0x27, 0xCE, 0xFE, 0x08, 0xA6, 0x2B, 0x6C, 0x3E, 0x00, 0xEE, 0xFE, 0x08, 0xEE, 0xFE, 0x08, 0x20,
    0x89, 0xFE, 0x20, 0x93, 0xFE, 0x20, 0x2F, 0xFB, 0xA6, 0x2B, 0x6C, 0xFD, 0x08, 0x00, 0x0D, 0x0B,
    0x09, 0x07, 0x05, 0x03, 0x01, 0x0E, 0x0C, 0x0A, 0x08, 0x06, 0x04, 0x02, 0x0F, 0x48, 0x20, 0x64,
    0xA7, 0xB0, 0x05, 0xA9, 0x00, 0xA8, 0x91, 0x40, 0x68, 0x4C, 0xD2, 0xA6, 0xAD, 0xE6, 0xB5, 0xD0,
    0x0B, 0xAD, 0xE4, 0xB5, 0xD0, 0x03, 0xCE, 0xE5, 0xB5, 0xCE, 0xE4, 0xB5, 0xCE, 0xE6, 0xB5, 0x4C,
    0x7E, 0xAE, 0x20, 0x94, 0xB1, 0x4C, 0xBE, 0xA6, 0x20, 0xA3, 0xA2, 0xAD, 0xEE, 0xB5, 0xA8, 0x0A,
    0xAD, 0xEF, 0xB5, 0xAA, 0x2A, 0x69, 0x01, 0x0A, 0x85, 0x42, 0x98, 0xE5, 0x42, 0x8D, 0xE4, 0xB5,
    0x8A, 0xE9, 0x00, 0x8D, 0xE5, 0xB5, 0xB0, 0xD7, 0x60, 0xC0, 0x01, 0xAD, 0xE6, 0xB5, 0xD0, 0x37,
    0xAD, 0xF6, 0xB5, 0xF0, 0x32, 0xAD, 0xC2, 0xB5, 0xF0, 0x2D, 0x90, 0x1D, 0xA9, 0xAD, 0x20, 0xF1,
    0x9D, 0x69, 0x80, 0x08, 0x20, 0xC6, 0xB0, 0xB0, 0x26, 0x28, 0x90, 0x05, 0x20, 0x52, 0xB1, 0x70,
    0x05, 0x20, 0x73, 0xB1, 0xF0, 0x09, 0x20, 0x99, 0xB1, 0x20, 0xFB, 0x9D, 0xB8, 0x50, 0xE4, 0x20,
    0xF7, 0x9D, 0xB0, 0x08, 0x20, 0x99, 0xB1, 0xB0, 0x03, 0x4C, 0x96, 0xAC, 0x4C, 0xCA, 0xAC, 0x4C,
    0x6F, 0xB3, 0xA3, 0xA0, 0xD2, 0xCF, 0xD2, 0xD2, 0xC5, 0x8D, 0x87, 0x8D, 0x00, 0x00, 0xB6, 0x09,
];

#[test]
fn test_encoded_data() {
    let expected_encoded = vec![
        0xb6, 0xf3, 0xdc, 0xf4, 0xb9, 0xf5, 0xf7, 0xeb, 0xb5, 0xef, 0xfc, 0xfc, 0xdf, 0xda, 0xe6,
        0xd9, 0xab, 0xab, 0xd9
    ];
    let encoded = Dsk::encode_6_and_2(&SECTOR);
    for i in 0..expected_encoded.len() {
        assert_eq!(encoded[i], expected_encoded[i]);
    }
}

use apple2::disk::disk_controller::DiskController;

#[test]
fn stepper_moves_the_head_half_a_track_per_phase() {
    let mut dc = DiskController::new(6);
    assert_eq!(dc.drive_phase_80, 0);
    // Phase 1 on, then off: one half-track in.
    dc.update_stepper(0xc083);
    assert_eq!(dc.drive_phase_80, 1);
    dc.update_stepper(0xc082);
    // Phase 2 on, then off: one more.
    dc.update_stepper(0xc085);
    assert_eq!(dc.drive_phase_80, 2);
    dc.update_stepper(0xc084);
    assert_eq!(dc.track(), 1);
    // Phase 1 on again: one half-track out.
    dc.update_stepper(0xc083);
    assert_eq!(dc.drive_phase_80, 1);
    dc.update_stepper(0xc082);
    // Phase 0 on: out to the first half-track, from which phase 3 cannot
    // pull the head further out.
    dc.update_stepper(0xc081);
    assert_eq!(dc.drive_phase_80, 0);
    dc.update_stepper(0xc080);
    dc.update_stepper(0xc087);
    assert_eq!(dc.drive_phase_80, 0);
}
