use apple2::memory::Apple2Memory;
use apple2::memory_constants::{
    ALT_CHAR_OFF, ALT_CHAR_ON, ALT_CHAR_STATUS, ALT_ZP_OFF, ALT_ZP_ON, ALT_ZP_STATUS, EIGHTY_COLUMNS_OFF,
    EIGHTY_COLUMNS_ON, EIGHTY_COLUMNS_STATUS, EIGHTY_STORE_OFF, EIGHTY_STORE_ON, EIGHTY_STORE_STATUS, HIRES_OFF,
    HIRES_ON, HIRES_STATUS, INTERNAL_CX_OFF, INTERNAL_CX_ON, INTERNAL_CX_STATUS, MIXED_OFF, MIXED_ON,
    MIXED_STATUS, PAGE_2_OFF, PAGE_2_ON, PAGE_2_STATUS, READ_AUX_MEM_OFF, READ_AUX_MEM_ON, READ_AUX_MEM_STATUS,
    SLOT_C3_OFF, SLOT_C3_ON, SLOT_C3_STATUS, TEXT_OFF, TEXT_ON, TEXT_STATUS, WRITE_AUX_MEM_OFF, WRITE_AUX_MEM_ON,
    WRITE_AUX_MEM_STATUS,
};
use apple2::shared::Shared;

const D: usize = 0xd1cb;
const F: usize = 0xfe1f;

fn new_memory(shared: &mut Shared) -> Box<Apple2Memory> {
    Box::new(Apple2Memory::new([None, None], false, shared))
}

fn get(m: &mut Apple2Memory, shared: &mut Shared, address: u16) -> u8 {
    assert!(m.can_access(address, shared));
    m.get(address, shared, 0, 0)
}

fn set(m: &mut Apple2Memory, shared: &mut Shared, address: u16, value: u8) {
    assert!(m.can_access(address, shared));
    m.set(address, value, shared, 0, 0)
}

#[test]
fn test_set_and_reset_switches() {
    let mut shared = Shared::new();
    let mut m = new_memory(&mut shared);
    let tests: Vec<(u16, u16, u16)> = vec![
        (EIGHTY_STORE_ON, EIGHTY_STORE_OFF, EIGHTY_STORE_STATUS),
        (TEXT_ON, TEXT_OFF, TEXT_STATUS),
        (HIRES_ON, HIRES_OFF, HIRES_STATUS),
        (MIXED_ON, MIXED_OFF, MIXED_STATUS),
        (PAGE_2_ON, PAGE_2_OFF, PAGE_2_STATUS),
        (READ_AUX_MEM_ON, READ_AUX_MEM_OFF, READ_AUX_MEM_STATUS),
        (WRITE_AUX_MEM_ON, WRITE_AUX_MEM_OFF, WRITE_AUX_MEM_STATUS),
        (INTERNAL_CX_ON, INTERNAL_CX_OFF, INTERNAL_CX_STATUS),
        (ALT_ZP_ON, ALT_ZP_OFF, ALT_ZP_STATUS),
        (ALT_CHAR_ON, ALT_CHAR_OFF, ALT_CHAR_STATUS),
        (SLOT_C3_ON, SLOT_C3_OFF, SLOT_C3_STATUS),
        (EIGHTY_COLUMNS_ON, EIGHTY_COLUMNS_OFF, EIGHTY_COLUMNS_STATUS),
    ];
    for (on, off, status) in tests {
        assert_eq!(get(&mut m, &mut shared, status) >= 0x80, false, "Expected default switch off: {:04X}", status);
        set(&mut m, &mut shared, on, 0x80);
        assert_eq!(get(&mut m, &mut shared, status) >= 0x80, true, "Expected status to be on: {:04X}", status);
        set(&mut m, &mut shared, off, 0x80);
        assert_eq!(get(&mut m, &mut shared, status) >= 0x80, false, "Expected status to be off: {:04X}", status);
    }
}

#[test]
fn test_high_ram() {
    // Default state:  $53 $60 $11 $22 $33
    let tests: Vec<(Vec<(u16, bool)>, [u8; 5])> = vec![
        (vec![(0xc088, true)], [0x11, 0x33, 0x11, 0x22, 0x33]),
        (vec![(0xc080, true)], [0x22, 0x33, 0x11, 0x22, 0x33]),
        (vec![(0xc081, true)], [0x53, 0x60, 0x11, 0x22, 0x33]),
        (vec![(0xc081, true), (0xc089, true)], [0x53, 0x60, 0x54, 0x22, 0x61]),
        (vec![(0xc081, true), (0xc081, true)], [0x53, 0x60, 0x11, 0x54, 0x61]),
        (vec![(0xc081, true), (0xc081, true), (0xc081, false)], [0x53, 0x60, 0x11, 0x54, 0x61]),
        (vec![(0xc081, true), (0xc081, true), (0xc081, true), (0xc081, true)], [0x53, 0x60, 0x11, 0x54, 0x61]),
        (vec![(0xc08b, true)], [0x11, 0x33, 0x11, 0x22, 0x33]),
        (vec![(0xc083, true)], [0x22, 0x33, 0x11, 0x22, 0x33]),
        (vec![(0xc08b, true), (0xc08b, true)], [0x12, 0x34, 0x12, 0x22, 0x34]),
        (vec![(0xc08f, true), (0xc087, true)], [0x23, 0x34, 0x11, 0x23, 0x34]),
        (vec![(0xc087, true), (0xc08d, true)], [0x53, 0x60, 0x54, 0x22, 0x61]),
        (vec![(0xc08b, true), (0xc08b, false), (0xc08b, true)], [0x11, 0x33, 0x11, 0x22, 0x33]),
        (vec![(0xc08b, false), (0xc08b, false), (0xc08b, true)], [0x11, 0x33, 0x11, 0x22, 0x33]),
        (vec![(0xc083, true), (0xc083, true)], [0x23, 0x34, 0x11, 0x23, 0x34]),
        (vec![(0xc083, true), (0xc083, true)], [0x23, 0x34, 0x11, 0x23, 0x34]),
    ];

    for (index, (addresses, expected)) in tests.iter().enumerate() {
        let mut shared = Shared::new();
        let mut m = new_memory(&mut shared);
        m.memories[0][D] = 0x53;
        m.memories[0][F] = 0x60;
        m.high_ram[0].banks[0][D - 0xd000] = 0x11;
        m.high_ram[0].banks[1][D - 0xd000] = 0x22;
        m.high_ram[0].high_ram[F - 0xe000] = 0x33;

        for a in addresses {
            if a.1 {
                let _ = get(&mut m, &mut shared, a.0);
            } else {
                set(&mut m, &mut shared, a.0, 0);
            }
        }

        let old = get(&mut m, &mut shared, D as u16);
        set(&mut m, &mut shared, D as u16, old + 1);
        let old2 = get(&mut m, &mut shared, F as u16);
        set(&mut m, &mut shared, F as u16, old2 + 1);

        let v = get(&mut m, &mut shared, D as u16);
        assert_eq!(v, expected[0], "Test {}: {:04X} error, expected {:02X}, got {:02X}", index, D, expected[0], v);
        let v = get(&mut m, &mut shared, F as u16);
        assert_eq!(v, expected[1], "Test {}: {:04X} error, expected {:02X}, got {:02X}", index, D, expected[1], v);
        let v = m.high_ram[0].banks[0][D - 0xd000];
        assert_eq!(v, expected[2], "Test {}: Bank 1 error, expected {:02X}, got {:02X}", index, expected[2], v);
        let v = m.high_ram[0].banks[1][D - 0xd000];
        assert_eq!(v, expected[3], "Test {}: Bank 2 error, expected {:02X}, got {:02X}", index, expected[3], v);
        let v = m.high_ram[0].high_ram[F - 0xe000];
        assert_eq!(v, expected[4], "Test {}: High ram error, expected {:02X}, got {:02X}", index, expected[4], v);
    }
}

#[test]
fn test_lang_card() {
    let mut shared = Shared::new();
    let mut m = new_memory(&mut shared);
    get(&mut m, &mut shared, 0xc08b);
    get(&mut m, &mut shared, 0xc08b);
    set(&mut m, &mut shared, D as u16, 0x44);

    let v = get(&mut m, &mut shared, D as u16);
    assert_eq!(v, 0x44, "{:04X} should be 0x44 but got {:02X}", D, v);
}

use apple2::memory_constants::INTERNAL_C8_ROM_OFF;

fn aux_memory(m: &mut Apple2Memory, shared: &mut Shared) {
    set(m, shared, ALT_ZP_ON, 0);
    set(m, shared, READ_AUX_MEM_ON, 0);
    set(m, shared, WRITE_AUX_MEM_ON, 0);
}

fn main_memory(m: &mut Apple2Memory, shared: &mut Shared) {
    set(m, shared, ALT_ZP_OFF, 0);
    set(m, shared, READ_AUX_MEM_OFF, 0);
    set(m, shared, WRITE_AUX_MEM_OFF, 0);
}

fn reset_all(m: &mut Apple2Memory, shared: &mut Shared) {
    set(m, shared, READ_AUX_MEM_OFF, 0);
    set(m, shared, WRITE_AUX_MEM_OFF, 0);
    set(m, shared, EIGHTY_STORE_OFF, 0);
    set(m, shared, INTERNAL_CX_OFF, 0);
    set(m, shared, ALT_ZP_OFF, 0);
    set(m, shared, SLOT_C3_OFF, 0);
    set(m, shared, INTERNAL_C8_ROM_OFF, 0);
    set(m, shared, EIGHTY_COLUMNS_OFF, 0);
    set(m, shared, ALT_CHAR_OFF, 0);
    set(m, shared, TEXT_OFF, 0);
    set(m, shared, MIXED_OFF, 0);
    set(m, shared, PAGE_2_OFF, 0);
    set(m, shared, HIRES_OFF, 0);
}

/// The bank switching of the auxiliary memory card, on the RAM areas (the
/// cases that read the slots' ROMs need the ROM images).
#[test]
fn test_aux_mem() {
    let locations: Vec<Vec<u16>> = vec![
        vec![0xff, 0x100],                                                  // zero page
        vec![0x200, 0x3ff, 0x800, 0x1fff, 0x4000, 0x4fff, 0x5fff, 0xbfff], // main memory
        vec![0x427, 0x7ff],                                                 // text
        vec![0x2000, 0x3fff],                                               // hires
    ];
    // Indices:  [ZP, MAIN, TEXT, HIRES, ZP (aux), MAIN (aux), TEXT (aux), HIRES (aux)]
    let tests: Vec<(u8, Vec<u16>, [u8; 8])> = vec![
        (1, Vec::new(), [2, 2, 2, 2, 3, 3, 3, 3]),
        (2, vec![WRITE_AUX_MEM_ON], [2, 1, 1, 1, 3, 2, 2, 2]),
        (3, vec![READ_AUX_MEM_ON], [2, 4, 4, 4, 3, 3, 3, 3]),
        (4, vec![READ_AUX_MEM_ON, WRITE_AUX_MEM_ON], [2, 1, 1, 1, 3, 4, 4, 4]),
        (5, vec![EIGHTY_STORE_ON], [2, 2, 2, 2, 3, 3, 3, 3]),
        (6, vec![WRITE_AUX_MEM_ON, EIGHTY_STORE_ON], [2, 1, 2, 1, 3, 2, 3, 2]),
        (7, vec![READ_AUX_MEM_ON, EIGHTY_STORE_ON], [2, 4, 2, 4, 3, 3, 3, 3]),
        (8, vec![READ_AUX_MEM_ON, WRITE_AUX_MEM_ON, EIGHTY_STORE_ON], [2, 1, 2, 1, 3, 4, 3, 4]),
        (9, vec![EIGHTY_STORE_ON, PAGE_2_ON], [2, 2, 1, 2, 3, 3, 4, 3]),
        (10, vec![WRITE_AUX_MEM_ON, EIGHTY_STORE_ON, PAGE_2_ON], [2, 1, 1, 1, 3, 2, 4, 2]),
        (11, vec![EIGHTY_STORE_ON, HIRES_ON, PAGE_2_ON], [2, 2, 1, 1, 3, 3, 4, 4]),
        (12, vec![WRITE_AUX_MEM_ON, EIGHTY_STORE_ON, HIRES_ON, PAGE_2_ON], [2, 1, 1, 1, 3, 2, 4, 4]),
        (13, vec![READ_AUX_MEM_ON, EIGHTY_STORE_ON, HIRES_ON, PAGE_2_ON], [2, 4, 1, 1, 3, 3, 4, 4]),
        (14, vec![READ_AUX_MEM_ON, WRITE_AUX_MEM_ON, EIGHTY_STORE_ON, HIRES_ON, PAGE_2_ON], [2, 1, 1, 1, 3, 4, 4, 4]),
        (15, vec![READ_AUX_MEM_ON, EIGHTY_STORE_ON, HIRES_ON], [2, 4, 2, 2, 3, 3, 3, 3]),
        (16, vec![READ_AUX_MEM_ON, WRITE_AUX_MEM_ON, EIGHTY_STORE_ON, HIRES_ON], [2, 1, 2, 2, 3, 4, 3, 3]),
        (17, vec![EIGHTY_STORE_ON, HIRES_ON, PAGE_2_ON], [2, 2, 1, 1, 3, 3, 4, 4]),
        (18, vec![WRITE_AUX_MEM_ON, EIGHTY_STORE_ON, HIRES_ON, PAGE_2_ON], [2, 1, 1, 1, 3, 2, 4, 4]),
        (19, vec![READ_AUX_MEM_ON, EIGHTY_STORE_ON, HIRES_ON, PAGE_2_ON], [2, 4, 1, 1, 3, 3, 4, 4]),
        (20, vec![READ_AUX_MEM_ON, WRITE_AUX_MEM_ON, EIGHTY_STORE_ON, HIRES_ON, PAGE_2_ON], [2, 1, 1, 1, 3, 4, 4, 4]),
    ];

    for (number, addresses, expected) in tests {
        let mut shared = Shared::new();
        let mut m = new_memory(&mut shared);
        reset_all(&mut m, &mut shared);
        // Initialize aux to 3 and main to 1
        for page in &locations {
            for l in page {
                aux_memory(&mut m, &mut shared);
                set(&mut m, &mut shared, *l, 3);
                main_memory(&mut m, &mut shared);
                set(&mut m, &mut shared, *l, 1);
            }
        }
        for address in addresses {
            set(&mut m, &mut shared, address, 0);
        }
        // Increment all the memory locations
        for page in &locations {
            for l in page {
                let old = get(&mut m, &mut shared, *l);
                set(&mut m, &mut shared, *l, old + 1);
            }
        }
        for mul in 0..2 {
            for i in 0..4 {
                reset_all(&mut m, &mut shared);
                if mul == 1 {
                    aux_memory(&mut m, &mut shared);
                }
                let exp = expected[i + mul * 4];
                for loc in &locations[i] {
                    let v = get(&mut m, &mut shared, *loc);
                    assert_eq!(
                        v, exp,
                        "Failed at location {} ${:04X}, expected {} but got {} (test#{}, index {})",
                        if mul == 0 { "main" } else { "aux" }, loc, exp, v, number, i + mul * 4
                    );
                }
            }
        }
    }
}

#[test]
fn write_gives_nothing_and_read_gives_the_byte() {
    let mut shared = Shared::new();
    let mut m = new_memory(&mut shared);
    for address in [0x0010u16, 0x0200, 0x1234, 0xbfff] {
        assert!(m.can_access(address, &shared));
        assert_eq!(m.get_or_set(address, 0x5a, false, &mut shared, 0, 0), None);
        assert_eq!(m.get_or_set(address, 0, true, &mut shared, 0, 0), Some(0x5a));
    }
    // a soft switch written gives nothing back either
    assert_eq!(m.get_or_set(TEXT_ON, 0, false, &mut shared, 0, 0), None);
}

use apple2::messages::SetMemoryMsg;

#[test]
fn bytes_set_in_main_memory() {
    let mut shared = Shared::new();
    let mut m = new_memory(&mut shared);
    m.set_memory(&SetMemoryMsg { address: 0x300, bytes: vec![0xa9, 0x01, 0x60] });
    assert_eq!(get(&mut m, &mut shared, 0x300), 0xa9);
    assert_eq!(get(&mut m, &mut shared, 0x301), 0x01);
    assert_eq!(get(&mut m, &mut shared, 0x302), 0x60);
    assert_eq!(get(&mut m, &mut shared, 0x303), 0x00);
}
