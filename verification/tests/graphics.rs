use apple2::ui::hires_screen::{calculate_coordinates_double_hires, calculate_correct_colors_from_bytes, AColor, HiresScreen};

#[test]
fn test_correct_colors_from_bytes() {
    let data = [
        ([0x2a, 0x55], AColor::Green),
        ([0x55, 0x2a], AColor::Magenta),
    ];
    for (bytes, expected_color) in data {
        let colors = calculate_correct_colors_from_bytes(0, bytes[0], bytes[1], 0);
        assert_eq!(colors.len(), 14);
        for i in 1..colors.len() - 1 {
            assert_eq!(colors[i], expected_color);
        }
    }
}

#[test]
fn test_coordinates() {
    let data = [
        (0x0, (0, 0)),
        (0x200, (0, 32))
    ];

    let screen = HiresScreen::new();
    for (address, (x, y)) in data {
        assert_eq!(screen.calculate_coordinates(address), (x, y));
    }
}

#[test]
fn bytes_of_a_line_map_back_to_it() {
    let screen = HiresScreen::new();
    // Line 64 starts at 0x28, line 9 at 0x480, line 191 at 0x1fd0.
    assert_eq!(screen.calculate_coordinates(0x28 + 4), (28, 64));
    assert_eq!(screen.calculate_coordinates(0x480 + 38), (266, 9));
    assert_eq!(screen.calculate_coordinates(0x1fd0 + 39), (266, 191));
    // In the 8 bytes that no line uses, the closest line before is given.
    assert_eq!(screen.calculate_coordinates(0x78), (280, 128));
}

#[test]
fn test_hires_colors_sliding_window() {
    let data = [(
        [
            0u8, 0, 0, 0, 0, 0, 1,
            1, 1, 0, 0, 0, 0, 0,
            0, 0, 0, 0, 0, 0, 0,
            0, 0, 0, 0, 0, 0, 0,
            0, 0, 0, 0,
        ],
        [0u8, 0, 0, 2, 3, 11, 11, 9, 8, 0, 0, 0, 0, 0, 0, 0, 0, 0, 0, 0, 0, 0, 0, 0, 0, 0, 0, 0],
    )];

    for (bits, expected) in data {
        let colors = HiresScreen::calculate_double_hires_colors_from_bits(bits);
        let expected_colors = expected.iter().map(|c| AColor::to_double_hires_color(*c)).collect::<Vec<AColor>>();
        assert_eq!(colors, expected_colors);
    }
}

#[test]
pub fn test_calculate_coordinates_double_hires() {
    let data = [
        (0x0000, (0, 0)),
        (0x0002, (14, 0)),
        (0x0026, (266, 0)),
        (0x0028, (280, 0)),
        (0x004e, (546, 0)),
        (0x0050, (560, 0)),
        (0x0400, (0, 1)),
    ];

    for (address, (expected_x, expected_y)) in data {
        let (x, y) = calculate_coordinates_double_hires(address);
        assert_eq!(x, expected_x, "Incorrect X received");
        assert_eq!(y, expected_y, "Incorrect X received");
    }
}

#[test]
fn uniform_bytes_are_black_or_white() {
    for (left, right) in [(0u8, 0u8), (1, 1), (0, 1)] {
        let black = calculate_correct_colors_from_bytes(left, 0x80, 0x00, right);
        assert!(black.iter().all(|c| *c == AColor::Black));
        let white = calculate_correct_colors_from_bytes(left, 0x7f, 0xff, right);
        assert!(white.iter().all(|c| *c == AColor::White));
    }
}
