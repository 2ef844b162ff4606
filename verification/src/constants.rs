use vstd::prelude::*;

verus! {

/// Text screen size, in characters.
pub const TEXT_WIDTH: u8 = 40;
pub const TEXT_HEIGHT: u8 = 24;

/// High resolution screen size, in pixels.
pub const HIRES_WIDTH: u16 = 280;
pub const HIRES_HEIGHT_MIXED: u16 = 160;
pub const HIRES_HEIGHT: u16 = 192;

/// Size of a character of the text screen, in pixels.
pub const FONT_WIDTH: u8 = 8;
pub const FONT_HEIGHT: u8 = 7;

/// Address of each line of the text screen (page 1).
pub const TEXT_MODE_ADDRESSES: [u16; 24] = [
    0x400, 0x480, 0x500, 0x580, 0x600, 0x680, 0x700, 0x780,
    0x428, 0x4a8, 0x528, 0x5a8, 0x628, 0x6a8, 0x728, 0x7a8,
    0x450, 0x4d0, 0x550, 0x5d0, 0x650, 0x6d0, 0x750, 0x7d0,
];

/// Frequency of the text FLASH mode in Hz (an even number).
pub const FLASH_FREQUENCY_HZ: u8 = 4;

/// Magnification of the screen.
pub const DEFAULT_MAGNIFICATION: u16 = 4;

/// Speed of the emulated CPU, in Hz.
pub const DEFAULT_SPEED_HZ: u64 = 1_740_000;

/// Cycles between the time the motor is turned off and the time it stops.
pub const SPINNING_DOWN_CYCLES: u64 = 1_200_000;

} // verus!
