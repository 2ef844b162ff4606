use vstd::prelude::*;
use crate::constants::{HIRES_HEIGHT, HIRES_HEIGHT_MIXED, TEXT_MODE_ADDRESSES};
use crate::memory_constants::{AN3_STATUS, EIGHTY_COLUMNS_STATUS, HIRES_STATUS, MIXED_STATUS, PAGE_2_STATUS, TEXT_STATUS};
use crate::misc::{soft_switch, switch_on};
use crate::misc::{bit, bit_of};

verus! {

/// A color of the high resolution (first six) and double high resolution
/// (DH) graphics.
#[derive(Clone, Copy, Debug, PartialEq, Eq, Structural)]
pub enum AColor {
    Black,
    White,
    Green,
    Orange,
    Magenta,
    Blue,
    DHBlack,
    DHDarkRed,
    DHBrown,
    DHOrange,
    DHDarkGreen,
    DHGray,
    DHLightGreen,
    DHYellow,
    DHDarkBlue,
    DHPurple,
    DHGrey,
    DHPink,
    DHMediumBlue,
    DHLightBlue,
    DHAqua,
    DHWhite,
}

/// The red, green and blue of a color (https://mrob.com/pub/xapple2/colors.html).
pub open spec fn rgb(c: AColor) -> (u8, u8, u8) {
    match c {
        AColor::Black => (0, 0, 0),
        AColor::White => (0xff, 0xff, 0xff),
        AColor::Green => (20, 245, 60),
        AColor::Orange => (255, 106, 60),
        AColor::Magenta => (255, 68, 253),
        AColor::Blue => (20, 207, 254),
        AColor::DHBlack => (0x00, 0x00, 0x00),
        AColor::DHDarkRed => (0x9d, 0x09, 0x66),
        AColor::DHDarkBlue => (0x2A, 0x2A, 0xE5),
        AColor::DHPurple => (0xc7, 0x32, 0x34),
        AColor::DHDarkGreen => (0x00, 0x80, 0x00),
        AColor::DHGray => (0x80, 0x80, 0x80),
        AColor::DHMediumBlue => (0x0D, 0xA1, 0xFF),
        AColor::DHLightBlue => (0xAA, 0xAA, 0xFF),
        AColor::DHBrown => (0x55, 0x55, 0x00),
        AColor::DHOrange => (0xF2, 0x5E, 0x00),
        AColor::DHGrey => (0xC0, 0xC0, 0xC0),
        AColor::DHPink => (0xFF, 0x89, 0xE5),
        AColor::DHLightGreen => (0x38, 0xCB, 0x00),
        AColor::DHYellow => (0xD5, 0xD5, 0x1A),
        AColor::DHAqua => (0x62, 0xF6, 0x99),
        AColor::DHWhite => (0xFF, 0xFF, 0xFF),
    }
}

/// The double high resolution color numbered `c` (0-15).
pub open spec fn dh_color(c: u8) -> AColor {
    if c == 0 {
        AColor::DHBlack
    } else if c == 1 {
        AColor::DHDarkRed
    } else if c == 2 {
        AColor::DHDarkBlue
    } else if c == 3 {
        AColor::DHPurple
    } else if c == 4 {
        AColor::DHDarkGreen
    } else if c == 5 {
        AColor::DHGray
    } else if c == 6 {
        AColor::DHMediumBlue
    } else if c == 7 {
        AColor::DHLightBlue
    } else if c == 8 {
        AColor::DHBrown
    } else if c == 9 {
        AColor::DHOrange
    } else if c == 10 {
        AColor::DHGrey
    } else if c == 11 {
        AColor::DHPink
    } else if c == 12 {
        AColor::DHLightGreen
    } else if c == 13 {
        AColor::DHYellow
    } else if c == 14 {
        AColor::DHAqua
    } else {
        AColor::DHWhite
    }
}

/// The standard 16-color palette of double high resolution, by color number:
/// black, dark red (magenta), dark blue, purple, dark green, gray, medium
/// blue, light blue, brown, orange, grey, pink, light green, yellow, aqua,
/// white.
pub open spec fn double_hires_palette() -> Seq<(u8, u8, u8)> {
    seq![
        (0x00u8, 0x00u8, 0x00u8),
        (0x9d, 0x09, 0x66),
        (0x2a, 0x2a, 0xe5),
        (0xc7, 0x32, 0x34),
        (0x00, 0x80, 0x00),
        (0x80, 0x80, 0x80),
        (0x0d, 0xa1, 0xff),
        (0xaa, 0xaa, 0xff),
        (0x55, 0x55, 0x00),
        (0xf2, 0x5e, 0x00),
        (0xc0, 0xc0, 0xc0),
        (0xff, 0x89, 0xe5),
        (0x38, 0xcb, 0x00),
        (0xd5, 0xd5, 0x1a),
        (0x62, 0xf6, 0x99),
        (0xff, 0xff, 0xff),
    ]
}

/// Double high resolution color number `n` shows the `n`-th color of the
/// standard palette, and two different numbers give two different colors.
pub proof fn lemma_double_hires_colors(n: u8, m: u8)
    requires
        n < 16,
        m < 16,
    ensures
        rgb(dh_color(n)) == double_hires_palette()[n as int],
        n != m ==> dh_color(n) != dh_color(m),
{
}

impl AColor {
    pub fn to_rgb(&self) -> (r: (u8, u8, u8))
        ensures
            r == rgb(*self),
    {
        match self {
            AColor::Black => (0, 0, 0),
            AColor::White => (0xff, 0xff, 0xff),
            AColor::Green => (20, 245, 60),
            AColor::Orange => (255, 106, 60),
            AColor::Magenta => (255, 68, 253),
            AColor::Blue => (20, 207, 254),
            AColor::DHBlack => (0x00, 0x00, 0x00),
            AColor::DHDarkRed => (0x9d, 0x09, 0x66),
            AColor::DHDarkBlue => (0x2A, 0x2A, 0xE5),
            AColor::DHPurple => (0xc7, 0x32, 0x34),
            AColor::DHDarkGreen => (0x00, 0x80, 0x00),
            AColor::DHGray => (0x80, 0x80, 0x80),
            AColor::DHMediumBlue => (0x0D, 0xA1, 0xFF),
            AColor::DHLightBlue => (0xAA, 0xAA, 0xFF),
            AColor::DHBrown => (0x55, 0x55, 0x00),
            AColor::DHOrange => (0xF2, 0x5E, 0x00),
            AColor::DHGrey => (0xC0, 0xC0, 0xC0),
            AColor::DHPink => (0xFF, 0x89, 0xE5),
            AColor::DHLightGreen => (0x38, 0xCB, 0x00),
            AColor::DHYellow => (0xD5, 0xD5, 0x1A),
            AColor::DHAqua => (0x62, 0xF6, 0x99),
            AColor::DHWhite => (0xFF, 0xFF, 0xFF),
        }
    }

    /// The double high resolution color numbered `color` (0-15).
    pub fn to_double_hires_color(color: u8) -> (r: AColor)
        requires
            color < 16,
        ensures
            r == dh_color(color),
    {
        if color == 0 {
            AColor::DHBlack
        } else if color == 1 {
            AColor::DHDarkRed
        } else if color == 2 {
            AColor::DHDarkBlue
        } else if color == 3 {
            AColor::DHPurple
        } else if color == 4 {
            AColor::DHDarkGreen
        } else if color == 5 {
            AColor::DHGray
        } else if color == 6 {
            AColor::DHMediumBlue
        } else if color == 7 {
            AColor::DHLightBlue
        } else if color == 8 {
            AColor::DHBrown
        } else if color == 9 {
            AColor::DHOrange
        } else if color == 10 {
            AColor::DHGrey
        } else if color == 11 {
            AColor::DHPink
        } else if color == 12 {
            AColor::DHLightGreen
        } else if color == 13 {
            AColor::DHYellow
        } else if color == 14 {
            AColor::DHAqua
        } else {
            AColor::DHWhite
        }
    }
}

/// A pixel of the screen and its color.
#[derive(Clone, Copy, Debug, PartialEq, Eq, Structural)]
pub struct Pixel {
    pub x: u16,
    pub y: u16,
    pub color: AColor,
}

impl Pixel {
    pub fn new(x: u16, y: u16, color: AColor) -> (r: Pixel)
        ensures
            r == (Pixel { x, y, color }),
    {
        Pixel { x, y, color }
    }
}

/// Offsets of the groups of eight lines of the high resolution screen.
pub const INTERLEAVING: [u16; 24] = [
    0, 0x80, 0x100, 0x180, 0x200, 0x280, 0x300, 0x380,
    0x28, 0xa8, 0x128, 0x1a8, 0x228, 0x2a8, 0x328, 0x3a8,
    0x50, 0xd0, 0x150, 0x1d0, 0x250, 0x2d0, 0x350, 0x3d0,
];

/// Offsets of the lines within a group of eight.
pub const CONSECUTIVES: [u16; 8] = [0, 0x400, 0x800, 0xc00, 0x1000, 0x1400, 0x1800, 0x1c00];

/// Offset in the high resolution page of line `k` (0-191).
pub open spec fn line_base(k: int) -> int {
    INTERLEAVING@[k / 8] + CONSECUTIVES@[k % 8]
}

proof fn lemma_line_base(k: int)
    requires
        0 <= k < 192,
    ensures
        0 <= line_base(k) <= 0x1fd0,
{
    let i = k / 8;
    let c = k % 8;
    assert(INTERLEAVING@[i] <= 0x3d0);
    assert(CONSECUTIVES@[c] <= 0x1c00);
}

/// `r` is what `calculate_coordinates` gives for the byte at `location`: the
/// pair of bytes that holds it lies on the line `r.1` that starts closest
/// before the pair, `r.0` pixels from the line's start (7 per byte).
pub open spec fn coordinates_of(location: int, r: (u16, u16)) -> bool {
    let loc = location - location % 2;
    let k = r.1 as int;
    &&& 0 <= k < 192
    &&& line_base(k) <= loc
    &&& forall|j: int| 0 <= j < 192 && line_base(j) <= loc ==> #[trigger] line_base(j) <= line_base(k)
    &&& r.0 == (loc - line_base(k)) * 7
}

/// No line starts fewer than 40 bytes after another.
proof fn lemma_line_gap(a: int, b: int)
    requires
        0 <= a < 192,
        0 <= b < 192,
        line_base(a) < line_base(b),
    ensures
        line_base(a) + 40 <= line_base(b),
{
    let ia = a / 8;
    let ib = b / 8;
    assert(INTERLEAVING@[ia] == 0x80 * (ia % 8) + 0x28 * (ia / 8));
    assert(INTERLEAVING@[ib] == 0x80 * (ib % 8) + 0x28 * (ib / 8));
    assert(CONSECUTIVES@[a % 8] == 0x400 * (a % 8));
    assert(CONSECUTIVES@[b % 8] == 0x400 * (b % 8));
}

/// The bytes of a line of the screen map back to it: the byte `x` (even,
/// below 40) of line `y` is at `7 * x` pixels on line `y`.
pub proof fn lemma_line_bytes_coordinates(y: int, x: int, r: (u16, u16))
    requires
        0 <= y < 192,
        0 <= x < 40,
        x % 2 == 0,
        coordinates_of(line_base(y) + x, r),
    ensures
        r.1 == y,
        r.0 == 7 * x,
{
    let k = r.1 as int;
    lemma_line_base(y);
    assert((line_base(y) + x) % 2 == 0) by {
        assert(line_base(y) % 2 == 0);
    }
    assert(line_base(y) <= line_base(k));
    if line_base(y) < line_base(k) {
        lemma_line_gap(y, k);
    }
    lemma_line_base_injective(k, y);
}

/// The lines of the high resolution screen from `k` on, one after the other.
pub struct Hgr {
    pub x: usize,
    pub y: usize,
    pub interleave: usize,
    pub consecutive: usize,
    pub total: usize,
}

impl Hgr {
    pub fn default() -> (r: Hgr)
        ensures
            r == (Hgr { x: 0, y: 0, interleave: 0, consecutive: 0, total: 0 }),
    {
        Hgr { x: 0, y: 0, interleave: 0, consecutive: 0, total: 0 }
    }

    /// The next line's offset, `None` after the last one.
    pub fn next(&mut self) -> (r: Option<usize>)
        requires
            old(self).consecutive < 8,
            old(self).interleave <= 24,
        ensures
            old(self).interleave < 24 ==> r == Some(line_base(old(self).interleave * 8 + old(self).consecutive) as usize),
            old(self).interleave >= 24 ==> r is None,
            final(self).consecutive == (if old(self).consecutive == 7 { 0int } else { old(self).consecutive + 1 } as int),
            final(self).interleave == (if old(self).consecutive == 7 { old(self).interleave + 1 } else { old(self).interleave as int }),
            final(self).consecutive < 8,
            final(self).x == old(self).x && final(self).y == old(self).y && final(self).total == old(self).total,
    {
        let result = if self.interleave < 24 {
            Some((INTERLEAVING[self.interleave] + CONSECUTIVES[self.consecutive]) as usize)
        } else {
            None
        };
        self.consecutive += 1;
        if self.consecutive == 8 {
            self.consecutive = 0;
            self.interleave += 1;
        }
        result
    }
}

/// The first line, from `k` on, whose double high resolution span holds
/// `a`: the line's offset and the 80 bytes after it (40 of main memory and 40
/// of auxiliary memory, 7 pixels each); 192 if none does.
pub open spec fn double_hires_line_of(a: int, k: int) -> int
    decreases 192 - k,
{
    if k >= 192 {
        192
    } else if line_base(k) <= a <= line_base(k) + 0x50 {
        k
    } else {
        double_hires_line_of(a, k + 1)
    }
}

proof fn lemma_double_hires_line_of(a: int, k: int)
    requires
        0 <= k <= 192,
    ensures
        k <= double_hires_line_of(a, k) <= 192,
        double_hires_line_of(a, k) < 192 ==> line_base(double_hires_line_of(a, k)) <= a <= line_base(
            double_hires_line_of(a, k),
        ) + 0x50,
    decreases 192 - k,
{
    if k < 192 && !(line_base(k) <= a <= line_base(k) + 0x50) {
        lemma_double_hires_line_of(a, k + 1);
    }
}

/// The coordinates, in double high resolution (560 pixels a line), of the
/// byte at `a` of a graphics page: the first line whose span holds `a`, and
/// 7 pixels per byte from the line's offset.
pub fn calculate_coordinates_double_hires(a: usize) -> (r: (u16, u16))
    requires
        a < 0x2000,
        a % 2 == 0,
        double_hires_line_of(a as int, 0) < 192,
    ensures
        r.1 == double_hires_line_of(a as int, 0),
        r.0 == (a - line_base(double_hires_line_of(a as int, 0))) * 7,
{
    let mut y: u16 = 0;
    let mut i: usize = 0;
    proof {
        lemma_double_hires_line_of(a as int, 0);
    }
    while i < 24
        invariant
            i <= 24,
            y == 8 * i,
            a < 0x2000,
            double_hires_line_of(a as int, 0) == double_hires_line_of(a as int, y as int),
            double_hires_line_of(a as int, 0) < 192,
        decreases 24 - i,
    {
        let mut c: usize = 0;
        while c < 8
            invariant
                i < 24,
                c <= 8,
                y == 8 * i + c,
                a < 0x2000,
                double_hires_line_of(a as int, 0) == double_hires_line_of(a as int, y as int),
                double_hires_line_of(a as int, 0) < 192,
            decreases 8 - c,
        {
            let r = CONSECUTIVES[c] + INTERLEAVING[i];
            proof {
                assert(line_base(y as int) == r) by {
                    assert((8 * i + c) / 8 == i && (8 * i + c) % 8 == c);
                }
            }
            if r <= a as u16 && (a as u16) <= r + 0x50 {
                let x = (a as u16 - r) * 7;
                return (x, y);
            }
            y += 1;
            c += 1;
        }
        i += 1;
    }
    proof {
        assert(double_hires_line_of(a as int, 192) == 192);
    }
    (0, 0)
}

/// Address of the character at column `x`, row `y` of the text screen.
pub fn text_coordinates_to_address(x: u8, y: u8, page2: bool) -> (r: u16)
    requires
        y < 24,
    ensures
        r == TEXT_MODE_ADDRESSES@[y as int] + x + (if page2 { 0x400int } else { 0 }),
{
    let mut result = TEXT_MODE_ADDRESSES[y as usize] + x as u16;
    if page2 {
        result += 0x400;
    }
    result
}

/// The color of a pixel given its bit (`current`), the bits around it, the
/// palette bit of its byte and whether its column is even.
pub open spec fn pixel_color(high_bit: u8, even: bool, previous: u8, current: u8, next: u8) -> AColor {
    if (previous == 0 && current == 0) || (current == 0 && next == 0) {
        AColor::Black
    } else if (previous == 1 && current == 1) || (current == 1 && next == 1) {
        AColor::White
    } else if (even && previous == 0 && current == 1 && next == 0) || (!even && previous == 1 && current == 0
        && next == 1) {
        if high_bit == 1 { AColor::Blue } else { AColor::Magenta }
    } else {
        if high_bit == 1 { AColor::Orange } else { AColor::Green }
    }
}

/// Return the color of the bit triplet (previous, current, next).
fn correct_color(high_bit: u8, even: bool, previous: u8, current: u8, next: u8) -> (r: AColor)
    requires
        previous <= 1 && current <= 1 && next <= 1,
    ensures
        r == pixel_color(high_bit, even, previous, current, next),
{
    if (previous == 0 && current == 0) || (current == 0 && next == 0) {
        AColor::Black
    } else if (previous == 1 && current == 1) || (current == 1 && next == 1) {
        AColor::White
    } else if (even && previous == 0 && current == 1 && next == 0) || (!even && previous == 1 && current == 0
        && next == 1) {
        if high_bit == 1 { AColor::Blue } else { AColor::Magenta }
    } else {
        if high_bit == 1 { AColor::Orange } else { AColor::Green }
    }
}

/// The 16 bits that the colors of two bytes depend on: the bit on their
/// left, the seven pixel bits of each byte (least significant first), the bit
/// on their right.
pub open spec fn pair_bits(left_bit: u8, b0: u8, b1: u8, right_bit: u8) -> Seq<u8> {
    seq![left_bit] + Seq::new(7, |k: int| bit_of(b0, k as u8)) + Seq::new(7, |k: int| bit_of(b1, k as u8))
        + seq![right_bit]
}

/// The color of pixel `i` (0-13) of the bytes `b0` and `b1`.
pub open spec fn pair_color(left_bit: u8, b0: u8, b1: u8, right_bit: u8, i: int) -> AColor {
    let bits = pair_bits(left_bit, b0, b1, right_bit);
    pixel_color(
        if i <= 7 { bit_of(b0, 7) } else { bit_of(b1, 7) },
        i % 2 == 0,
        bits[i],
        bits[i + 1],
        bits[i + 2],
    )
}

/// The 14 colors of the pixels of the bytes `b0` and `b1`: a window of three
/// bits slides over their bits.
pub open spec fn pair_colors(left_bit: u8, b0: u8, b1: u8, right_bit: u8) -> Seq<AColor> {
    Seq::new(14, |i: int| pair_color(left_bit, b0, b1, right_bit, i))
}

proof fn lemma_pixel_bits(b: u8, k: u8)
    by (bit_vector)
    requires
        k < 7,
    ensures
        b & 0x7f == 0 ==> (b >> k) & 1 == 0,
        b & 0x7f == 0x7f ==> (b >> k) & 1 == 1,
{
}

/// Two bytes whose seven pixel bits are all off show black pixels only, and
/// two bytes whose pixel bits are all on show white pixels only, whatever
/// their palette bits and the bits around them.
pub proof fn lemma_uniform_bytes_colors(left_bit: u8, b0: u8, b1: u8, right_bit: u8)
    requires
        left_bit <= 1,
        right_bit <= 1,
    ensures
        b0 & 0x7f == 0 && b1 & 0x7f == 0 ==> forall|i: int|
            0 <= i < 14 ==> #[trigger] pair_colors(left_bit, b0, b1, right_bit)[i] == AColor::Black,
        b0 & 0x7f == 0x7f && b1 & 0x7f == 0x7f ==> forall|i: int|
            0 <= i < 14 ==> #[trigger] pair_colors(left_bit, b0, b1, right_bit)[i] == AColor::White,
{
    let bits = pair_bits(left_bit, b0, b1, right_bit);
    assert forall|j: int| 1 <= j <= 14 implies bits[j] == (if j <= 7 { bit_of(b0, (j - 1) as u8) } else {
        bit_of(b1, (j - 8) as u8)
    }) by {
        if j <= 7 {
            lemma_pixel_bits(b0, (j - 1) as u8);
        } else {
            lemma_pixel_bits(b1, (j - 8) as u8);
        }
    }
    assert forall|j: int| 1 <= j <= 14 implies (b0 & 0x7f == 0 && b1 & 0x7f == 0 ==> bits[j] == 0) && (b0
        & 0x7f == 0x7f && b1 & 0x7f == 0x7f ==> bits[j] == 1) by {
        if j <= 7 {
            lemma_pixel_bits(b0, (j - 1) as u8);
        } else {
            lemma_pixel_bits(b1, (j - 8) as u8);
        }
    }
    assert(bits.len() == 16);
    assert forall|i: int| 0 <= i < 14 implies (b0 & 0x7f == 0 && b1 & 0x7f == 0 ==> #[trigger] pair_colors(
        left_bit,
        b0,
        b1,
        right_bit,
    )[i] == AColor::Black) && (b0 & 0x7f == 0x7f && b1 & 0x7f == 0x7f ==> pair_colors(
        left_bit,
        b0,
        b1,
        right_bit,
    )[i] == AColor::White) by {
        assert(pair_colors(left_bit, b0, b1, right_bit)[i] == pair_color(left_bit, b0, b1, right_bit, i));
        if i == 0 {
            assert(bits[i + 1] == bits[1] && bits[i + 2] == bits[2]);
        } else if i == 13 {
            assert(bits[i] == bits[13] && bits[i + 1] == bits[14]);
        } else {
            assert(1 <= i && i + 1 <= 14 && i + 2 <= 14);
        }
    }
}

/// The color that a pixel shows with the second palette (palette bit set)
/// where it shows `c` with the first: green becomes orange, magenta becomes
/// blue, black and white stay.
pub open spec fn second_palette(c: AColor) -> AColor {
    match c {
        AColor::Green => AColor::Orange,
        AColor::Magenta => AColor::Blue,
        _ => c,
    }
}

proof fn lemma_palette_bit(b: u8, k: u8)
    by (bit_vector)
    ensures
        k < 7 ==> ((b | 0x80) >> k) & 1 == ((b & 0x7f) >> k) & 1,
        ((b | 0x80) >> 7u8) & 1 == 1,
        ((b & 0x7f) >> 7u8) & 1 == 0,
        b < 0x80 ==> b & 0x7f == b,
{
}

/// The palette bit (bit 7) of the bytes only changes the palette of their
/// colors: with it set on both bytes, each of the 14 pixels shows the
/// second-palette partner of the color it shows with it clear (green becomes
/// orange, magenta becomes blue), whatever the pixel bits and the bits around.
pub proof fn lemma_palette_bit_changes_palette(left_bit: u8, b0: u8, b1: u8, right_bit: u8)
    ensures
        forall|i: int|
            0 <= i < 14 ==> #[trigger] pair_colors(left_bit, b0 | 0x80, b1 | 0x80, right_bit)[i] == second_palette(
                pair_colors(left_bit, b0 & 0x7f, b1 & 0x7f, right_bit)[i],
            ),
{
    let set = pair_bits(left_bit, b0 | 0x80, b1 | 0x80, right_bit);
    let clear = pair_bits(left_bit, b0 & 0x7f, b1 & 0x7f, right_bit);
    assert forall|j: int| 0 <= j < 16 implies #[trigger] set[j] == clear[j] by {
        if 1 <= j <= 7 {
            lemma_palette_bit(b0, (j - 1) as u8);
        } else if 8 <= j <= 14 {
            lemma_palette_bit(b1, (j - 8) as u8);
        }
    }
    assert(set =~= clear);
    lemma_palette_bit(b0, 0);
    lemma_palette_bit(b1, 0);
}

/// The colors of the pixels with the first palette (palette bits clear): a
/// lit pixel between two dark ones shows magenta in an even column and green
/// in an odd one; a dark pixel between two lit ones shows green in an even
/// column and magenta in an odd one; a dark pixel next to a dark one is black
/// and a lit pixel next to a lit one is white.
pub proof fn lemma_dot_colors(left_bit: u8, b0: u8, b1: u8, right_bit: u8, i: int)
    requires
        b0 < 0x80,
        b1 < 0x80,
        0 <= i < 14,
    ensures
        ({
            let bits = pair_bits(left_bit, b0, b1, right_bit);
            let color = pair_colors(left_bit, b0, b1, right_bit)[i];
            &&& bits[i] == 0 && bits[i + 1] == 1 && bits[i + 2] == 0 ==> color == (if i % 2 == 0 {
                AColor::Magenta
            } else {
                AColor::Green
            })
            &&& bits[i] == 1 && bits[i + 1] == 0 && bits[i + 2] == 1 ==> color == (if i % 2 == 0 {
                AColor::Green
            } else {
                AColor::Magenta
            })
            &&& bits[i + 1] == 0 && (bits[i] == 0 || bits[i + 2] == 0) ==> color == AColor::Black
            &&& bits[i + 1] == 1 && (bits[i] == 1 || bits[i + 2] == 1) ==> color == AColor::White
        }),
{
    lemma_palette_bit(b0, 0);
    lemma_palette_bit(b1, 0);
}

/// Move a sliding window of three bits (previous, current, next) over the
/// bits of two bytes and calculate the colors from that triplet.
pub fn calculate_correct_colors_from_bytes(left_bit: u8, b0: u8, b1: u8, right_bit: u8) -> (r: Vec<AColor>)
    requires
        left_bit <= 1,
        right_bit <= 1,
    ensures
        r@ == pair_colors(left_bit, b0, b1, right_bit),
{
    let mut result: Vec<AColor> = Vec::new();
    let high_bit0 = bit(b0, 7);
    let high_bit1 = bit(b1, 7);
    let mut bits: Vec<u8> = Vec::new();
    bits.push(left_bit);
    let mut k: u8 = 0;
    while k < 7
        invariant
            k <= 7,
            bits@ == seq![left_bit] + Seq::new(k as nat, |j: int| bit_of(b0, j as u8)),
        decreases 7 - k,
    {
        bits.push(bit(b0, k));
        k += 1;
        assert(bits@ =~= seq![left_bit] + Seq::new(k as nat, |j: int| bit_of(b0, j as u8)));
    }
    let mut k: u8 = 0;
    while k < 7
        invariant
            k <= 7,
            bits@ == seq![left_bit] + Seq::new(7, |j: int| bit_of(b0, j as u8)) + Seq::new(
                k as nat,
                |j: int| bit_of(b1, j as u8),
            ),
        decreases 7 - k,
    {
        bits.push(bit(b1, k));
        k += 1;
        assert(bits@ =~= seq![left_bit] + Seq::new(7, |j: int| bit_of(b0, j as u8)) + Seq::new(
            k as nat,
            |j: int| bit_of(b1, j as u8),
        ));
    }
    bits.push(right_bit);
    let ghost all = pair_bits(left_bit, b0, b1, right_bit);
    assert(bits@ =~= all);
    assert(all.len() == 16);
    proof {
        assert forall|j: int| 0 <= j < 16 implies #[trigger] all[j] <= 1 by {
            if 1 <= j < 8 {
                let q = (j - 1) as u8;
                assert(bit_of(b0, q) <= 1) by (bit_vector);
            } else if 8 <= j < 15 {
                let q = (j - 8) as u8;
                assert(bit_of(b1, q) <= 1) by (bit_vector);
            }
        }
    }
    let mut i: usize = 0;
    let mut even = true;
    let mut high_bit = high_bit0;
    while i < 14
        invariant
            i <= 14,
            bits@ == all,
            all == pair_bits(left_bit, b0, b1, right_bit),
            all.len() == 16,
            forall|j: int| 0 <= j < 16 ==> #[trigger] all[j] <= 1,
            even == (i % 2 == 0),
            high_bit == (if i <= 7 { bit_of(b0, 7) } else { bit_of(b1, 7) }),
            high_bit1 == bit_of(b1, 7),
            result@ == pair_colors(left_bit, b0, b1, right_bit).take(i as int),
        decreases 14 - i,
    {
        let color = correct_color(high_bit, even, bits[i], bits[i + 1], bits[i + 2]);
        assert(color == pair_colors(left_bit, b0, b1, right_bit)[i as int]);
        result.push(color);
        if i >= 7 {
            high_bit = high_bit1;
        }
        even = !even;
        i += 1;
        assert(result@ =~= pair_colors(left_bit, b0, b1, right_bit).take(i as int));
    }
    assert(pair_colors(left_bit, b0, b1, right_bit).take(14) =~= pair_colors(left_bit, b0, b1, right_bit));
    result
}

/// Device-agnostic representation of the high resolution graphics: the
/// screen's lines, and the state of the double high resolution drawing.
pub struct HiresScreen {
    /// Offset of each line in a graphics page, with its number
    pub line_map: Vec<(u16, u16)>,
    /// RGB mode (0-3) of double high resolution
    pub dhg_rgb_mode: u8,
    /// The last cell drawn in double high resolution was in color
    pub last_cell_is_color: bool,
    /// The last bit drawn in black and white
    pub last_bit: usize,
}

impl HiresScreen {
    /// The line map holds the 192 lines, in order.
    pub open spec fn wf(&self) -> bool {
        self.line_map@ == Seq::new(192, |k: int| (line_base(k) as u16, k as u16))
    }

    pub fn new() -> (r: HiresScreen)
        ensures
            r.wf(),
            r.dhg_rgb_mode == 0,
            r.last_cell_is_color,
            r.last_bit == 0,
    {
        let mut line_map: Vec<(u16, u16)> = Vec::new();
        let mut l: u16 = 0;
        let mut i: usize = 0;
        while i < 24
            invariant
                i <= 24,
                l == 8 * i,
                line_map@ == Seq::new(l as nat, |k: int| (line_base(k) as u16, k as u16)),
            decreases 24 - i,
        {
            let mut c: usize = 0;
            while c < 8
                invariant
                    i < 24,
                    c <= 8,
                    l == 8 * i + c,
                    line_map@ == Seq::new(l as nat, |k: int| (line_base(k) as u16, k as u16)),
                decreases 8 - c,
            {
                proof {
                    assert((8 * i + c) / 8 == i && (8 * i + c) % 8 == c);
                }
                line_map.push((INTERLEAVING[i] + CONSECUTIVES[c], l));
                l += 1;
                c += 1;
                assert(line_map@ =~= Seq::new(l as nat, |k: int| (line_base(k) as u16, k as u16)));
            }
            i += 1;
        }
        HiresScreen { line_map, dhg_rgb_mode: 0, last_cell_is_color: true, last_bit: 0 }
    }

    pub fn on_reboot(&mut self)
        ensures
            *final(self) == (HiresScreen { dhg_rgb_mode: 0, ..*old(self) }),
    {
        self.dhg_rgb_mode = 0;
    }

    /// The coordinates of the byte at `location` (0..0x2000) of a graphics
    /// page, 7 pixels per byte, bytes taken by pairs: the line is the one
    /// that starts closest before the pair.
    pub fn calculate_coordinates(&self, location: usize) -> (r: (u16, u16))
        requires
            self.wf(),
            location < 0x2000,
        ensures
            coordinates_of(location as int, r),
    {
        let even = location % 2 == 0;
        let even_location = if even { location } else { location - 1 };
        let loc = even_location as i32;
        let mut closest: i32 = i32::MAX;
        let mut key: u16 = 0;
        let mut line: u16 = 0;
        let mut n: usize = 0;
        while n < self.line_map.len()
            invariant
                self.wf(),
                n <= 192,
                0 <= loc < 0x2000,
                n == 0 ==> closest == i32::MAX,
                n > 0 ==> {
                    &&& line < 192
                    &&& line_base(line as int) <= loc
                    &&& key == line_base(line as int)
                    &&& closest == loc - key
                    &&& forall|j: int| 0 <= j < n && line_base(j) <= loc ==> #[trigger] line_base(j) <= line_base(line as int)
                },
            decreases 192 - n,
        {
            let (k, l) = self.line_map[n];
            proof {
                assert(line_base(0) == 0);
                lemma_line_base(n as int);
                assert(self.line_map@[n as int] == (line_base(n as int) as u16, n as u16));
                assert(k == line_base(n as int));
                assert(l == n);
            }
            let distance: i32 = loc - k as i32;
            if 0 <= distance && distance <= closest {
                closest = distance;
                key = k;
                line = l;
            }
            proof {
                assert forall|j: int| 0 <= j < n + 1 && line_base(j) <= loc implies #[trigger] line_base(j) <= line_base(line as int) by {
                    if j < n {
                    } else {
                        assert(j == n);
                    }
                }
            }
            n += 1;
        }
        let x = ((loc - key as i32) * 7) as u16;
        (x, line)
    }
}

/// The two bytes at `i` (even) of a graphics page hold no pixel: they are in
/// the unused parts of a page.
pub open spec fn unused_pair(i: int) -> bool {
    let mask = i % 256;
    (0x78 <= mask <= 0x7f) || (0xf8 <= mask <= 0xff)
}

/// The pair at `i` starts a line.
pub open spec fn line_start(i: int) -> bool {
    let mask = i % 256;
    mask == 0 || mask == 0x80 || mask == 0x28 || mask == 0xa8 || mask == 0x50 || mask == 0xd0
}

/// The pair at `i` ends a line.
pub open spec fn line_end(i: int) -> bool {
    let mask = i % 256;
    mask == 0x26 || mask == 0xa6 || mask == 0x4e || mask == 0xce || mask == 0x76 || mask == 0xf6
}

/// The line and column of the pair at `i` (see `calculate_coordinates`).
pub open spec fn pair_line(i: int) -> int {
    choose|k: int|
        0 <= k < 192 && line_base(k) <= i && forall|j: int|
            0 <= j < 192 && line_base(j) <= i ==> #[trigger] line_base(j) <= line_base(k)
}

/// The 14 pixels of the pair of bytes at `i` (even) of `memory`, none if the
/// pair is unused.
pub open spec fn pair_pixels(memory: Seq<u8>, i: int) -> Seq<Pixel> {
    if unused_pair(i) {
        Seq::empty()
    } else {
        let left = if line_start(i) { 0u8 } else { bit_of(memory[i - 1], 6) };
        let right = if line_end(i) || i + 2 >= memory.len() { 0u8 } else { bit_of(memory[i + 2], 0) };
        let colors = pair_colors(left, memory[i], memory[i + 1], right);
        let k = pair_line(i);
        let x = (i - line_base(k)) * 7;
        Seq::new(14, |j: int| Pixel { x: (x + j) as u16, y: k as u16, color: colors[j] })
    }
}

/// The pixels of the first `n` pairs of bytes of `memory`.
pub open spec fn pixels_of(memory: Seq<u8>, n: int) -> Seq<Pixel>
    decreases n,
{
    if n <= 0 {
        Seq::empty()
    } else {
        pixels_of(memory, n - 1) + pair_pixels(memory, 2 * (n - 1))
    }
}

proof fn lemma_pair_line(i: int, r: (u16, u16))
    requires
        0 <= i,
        ({
            let k = r.1 as int;
            &&& 0 <= k < 192
            &&& line_base(k) <= i
            &&& forall|j: int| 0 <= j < 192 && line_base(j) <= i ==> #[trigger] line_base(j) <= line_base(k)
        }),
    ensures
        pair_line(i) == r.1,
{
    let k = r.1 as int;
    let c = pair_line(i);
    assert(0 <= c < 192 && line_base(c) <= i && forall|j: int|
        0 <= j < 192 && line_base(j) <= i ==> #[trigger] line_base(j) <= line_base(c));
    assert(line_base(k) == line_base(c));
    lemma_line_base_injective(k, c);
}

proof fn lemma_line_base_injective(a: int, b: int)
    requires
        0 <= a < 192,
        0 <= b < 192,
        line_base(a) == line_base(b),
    ensures
        a == b,
{
    let ia = a / 8;
    let ca = a % 8;
    let ib = b / 8;
    let cb = b % 8;
    assert(INTERLEAVING@[ia] < 0x400);
    assert(INTERLEAVING@[ib] < 0x400);
    assert(CONSECUTIVES@[ca] == 0x400 * ca);
    assert(CONSECUTIVES@[cb] == 0x400 * cb);
    assert(ca == cb);
    assert(INTERLEAVING@[ia] == INTERLEAVING@[ib]);
}

impl HiresScreen {
    /// All the pixels of this area of memory (a graphics page), pair of
    /// bytes by pair of bytes, in order.
    #[verifier::spinoff_prover]
    #[verifier::rlimit(40)]
    pub fn calculate_pixels(memory: &[u8]) -> (r: Vec<Pixel>)
        requires
            memory@.len() <= 0x2000,
            memory@.len() % 2 == 0,
        ensures
            r@ == pixels_of(memory@, memory@.len() as int / 2),
            forall|k: int| 0 <= k < r@.len() ==> (#[trigger] r@[k]).x < 0x2000 * 7 + 14 && r@[k].y < 192,
    {
        let mut result: Vec<Pixel> = Vec::new();
        let screen = HiresScreen::new();
        let n = memory.len();
        let mut i: usize = 0;
        while i < n
            invariant
                n == memory@.len(),
                n <= 0x2000,
                n % 2 == 0,
                i % 2 == 0,
                i <= n,
                screen.wf(),
                result@ == pixels_of(memory@, i as int / 2),
                forall|k: int| 0 <= k < result@.len() ==> (#[trigger] result@[k]).x < 0x2000 * 7 + 14 && result@[k].y < 192,
            decreases n - i,
        {
            let mask = i & 0xff;
            assert(mask == i % 256) by (bit_vector)
                requires
                    mask == i & 0xff,
            ;
            proof {
                assert((i + 2) / 2 == i / 2 + 1);
            }
            if (mask >= 0x78 && mask <= 0x7f) || (mask >= 0xf8 && mask <= 0xff) {
                i += 2;
                proof {
                    assert(pair_pixels(memory@, 2 * (i / 2 - 1)) =~= Seq::empty());
                    assert(result@ =~= pixels_of(memory@, i as int / 2));
                }
            } else {
                let beginning = mask == 0 || mask == 0x80 || mask == 0x28 || mask == 0xa8 || mask == 0x50 || mask
                    == 0xd0;
                let end = mask == 0x26 || mask == 0xa6 || mask == 0x4e || mask == 0xce || mask == 0x76 || mask
                    == 0xf6;
                let left_bit = if beginning { 0 } else { bit(memory[i - 1], 6) };
                let right_bit = if end || i + 2 >= n { 0 } else { bit(memory[i + 2], 0) };
                let colors = calculate_correct_colors_from_bytes(left_bit, memory[i], memory[i + 1], right_bit);
                let (x0, y) = screen.calculate_coordinates(i);
                proof {
                    lemma_pair_line(i as int, (x0, y));
                }
                let ghost before = result@;
                let mut x = x0;
                let mut k: usize = 0;
                while k < 14
                    invariant
                        k <= 14,
                        colors@.len() == 14,
                        x == x0 + k,
                        x0 <= 0x2000 * 7,
                        y < 192,
                        forall|q: int| 0 <= q < result@.len() ==> (#[trigger] result@[q]).x < 0x2000 * 7 + 14 && result@[q].y < 192,
                        result@ == before + Seq::new(k as nat, |j: int| Pixel { x: (x0 + j) as u16, y, color: colors@[j] }),
                    decreases 14 - k,
                {
                    result.push(Pixel::new(x, y, colors[k]));
                    x += 1;
                    k += 1;
                    assert(result@ =~= before + Seq::new(k as nat, |j: int| Pixel { x: (x0 + j) as u16, y, color: colors@[j] }));
                }
                i += 2;
                proof {
                    assert(pair_pixels(memory@, 2 * (i / 2 - 1)) =~= Seq::new(14, |j: int| Pixel { x: (x0 + j) as u16, y, color: colors@[j] }));
                    assert(result@ =~= pixels_of(memory@, i as int / 2));
                }
            }
        }
        result
    }
}

/// A rectangle to draw, from (x0, y0) to (x1, y1), in a color.
#[derive(Clone, Copy, Debug, PartialEq, Eq, Structural)]
pub enum DrawCommand {
    Rectangle(usize, usize, usize, usize, AColor),
}

/// The 32 bits of four bytes of double high resolution (without their
/// palette bits), with two bits of the byte on their left and two of the
/// byte on their right.
pub open spec fn dh_bits(byte_left: u8, byte0: u8, byte1: u8, byte2: u8, byte3: u8, byte_right: u8) -> Seq<u8> {
    Seq::new(
        32,
        |q: int|
            if q == 0 {
                bit_of(byte_left, 5)
            } else if q == 1 {
                bit_of(byte_left, 6)
            } else if q < 30 {
                let t = (q - 2) / 7;
                let byte = if t == 0 {
                    byte0
                } else if t == 1 {
                    byte1
                } else if t == 2 {
                    byte2
                } else {
                    byte3
                };
                bit_of(byte, ((q - 2) % 7) as u8)
            } else if q == 30 {
                bit_of(byte_right, 0)
            } else {
                bit_of(byte_right, 1)
            },
    )
}

/// The color number of the window of four bits at `index`: the bits are
/// rotated by the position of the window in its group of four.
pub open spec fn window_color(bits: Seq<u8>, index: int) -> u8 {
    let md = index % 4;
    let b0 = bits[index];
    let b1 = bits[index + 1];
    let b2 = bits[index + 2];
    let b3 = bits[index + 3];
    (if md == 0 {
        (b0 << 3u8) | (b1 << 2u8) | (b2 << 1u8) | b3
    } else if md == 1 {
        (b3 << 3u8) | (b0 << 2u8) | (b1 << 1u8) | b2
    } else if md == 2 {
        (b2 << 3u8) | (b3 << 2u8) | (b0 << 1u8) | b1
    } else {
        (b1 << 3u8) | (b2 << 2u8) | (b3 << 1u8) | b0
    }) as u8
}

proof fn lemma_window_color(b0: u8, b1: u8, b2: u8, b3: u8)
    requires
        b0 <= 1 && b1 <= 1 && b2 <= 1 && b3 <= 1,
    ensures
        ((b0 << 3u8) | (b1 << 2u8) | (b2 << 1u8) | b3) < 16,
{
    assert(((b0 << 3u8) | (b1 << 2u8) | (b2 << 1u8) | b3) < 16) by (bit_vector)
        requires
            b0 <= 1 && b1 <= 1 && b2 <= 1 && b3 <= 1,
    ;
}

impl HiresScreen {
    /// The bits of the bytes `byte0` to `byte3`, with two bits of the bytes
    /// around them: see `dh_bits`.
    pub fn bits(byte_left: u8, byte0: u8, byte1: u8, byte2: u8, byte3: u8, byte_right: u8) -> (r: [u8; 32])
        ensures
            r@ == dh_bits(byte_left, byte0, byte1, byte2, byte3, byte_right),
            forall|k: int| 0 <= k < 32 ==> #[trigger] r@[k] <= 1,
    {
        let ghost d = dh_bits(byte_left, byte0, byte1, byte2, byte3, byte_right);
        let mut result: [u8; 32] = [0; 32];
        result[0] = bit(byte_left, 5);
        result[1] = bit(byte_left, 6);
        let bytes: [u8; 4] = [byte0, byte1, byte2, byte3];
        let mut b: usize = 0;
        while b < 4
            invariant
                b <= 4,
                d == dh_bits(byte_left, byte0, byte1, byte2, byte3, byte_right),
                bytes@ == seq![byte0, byte1, byte2, byte3],
                forall|q: int| 0 <= q < 32 ==> #[trigger] result@[q] <= 1,
                forall|q: int| 0 <= q < 2 + 7 * b ==> #[trigger] result@[q] == d[q],
            decreases 4 - b,
        {
            let mut k: u8 = 0;
            while k < 7
                invariant
                    b < 4,
                    k <= 7,
                    d == dh_bits(byte_left, byte0, byte1, byte2, byte3, byte_right),
                    bytes@ == seq![byte0, byte1, byte2, byte3],
                    forall|q: int| 0 <= q < 32 ==> #[trigger] result@[q] <= 1,
                    forall|q: int| 0 <= q < 2 + 7 * b + k ==> #[trigger] result@[q] == d[q],
                decreases 7 - k,
            {
                let q: usize = 2 + 7 * b + k as usize;
                proof {
                    assert((q - 2) / 7 == b && (q - 2) % 7 == k);
                }
                result[q] = bit(bytes[b], k);
                k += 1;
            }
            b += 1;
        }
        result[30] = bit(byte_right, 0);
        result[31] = bit(byte_right, 1);
        assert(result@ =~= d);
        result
    }

    /// The 28 colors of a window of four bits sliding over 32 bits (see
    /// `window_color`).
    pub fn calculate_double_hires_colors_from_bits(bits: [u8; 32]) -> (r: Vec<AColor>)
        requires
            forall|k: int| 0 <= k < 32 ==> #[trigger] bits@[k] <= 1,
        ensures
            r@ == Seq::new(28, |i: int| dh_color(window_color(bits@, i))),
    {
        let mut result: Vec<AColor> = Vec::new();
        let mut index: usize = 0;
        while index < 28
            invariant
                forall|k: int| 0 <= k < 32 ==> #[trigger] bits@[k] <= 1,
                index <= 28,
                result@ == Seq::new(index as nat, |i: int| dh_color(window_color(bits@, i))),
            decreases 28 - index,
        {
            let md = index % 4;
            let b0 = bits[index];
            let b1 = bits[index + 1];
            let b2 = bits[index + 2];
            let b3 = bits[index + 3];
            let color = if md == 0 {
                proof { lemma_window_color(b0, b1, b2, b3); }
                b0 << 3u8 | b1 << 2u8 | b2 << 1u8 | b3
            } else if md == 1 {
                proof { lemma_window_color(b3, b0, b1, b2); }
                b3 << 3u8 | b0 << 2u8 | b1 << 1u8 | b2
            } else if md == 2 {
                proof { lemma_window_color(b2, b3, b0, b1); }
                b2 << 3u8 | b3 << 2u8 | b0 << 1u8 | b1
            } else {
                proof { lemma_window_color(b1, b2, b3, b0); }
                b1 << 3u8 | b2 << 2u8 | b3 << 1u8 | b0
            };
            result.push(AColor::to_double_hires_color(color));
            index += 1;
            assert(result@ =~= Seq::new(index as nat, |i: int| dh_color(window_color(bits@, i))));
        }
        result
    }
}

/// The 28 pixel bits of four bytes (without their palette bits), the first
/// byte's bits lowest.
pub open spec fn dh_word(v1: u32, v2: u32, v3: u32, v4: u32) -> u32 {
    ((v1 & 0x7f) | ((v2 & 0x7f) << 7u32) | ((v3 & 0x7f) << 14u32) | ((v4 & 0x7f) << 21u32)) as u32
}

/// The color number of the 4-bit cell `i` (0-6) of `w`: its bits rotated.
pub open spec fn cell_color(w: u32, i: int) -> u8 {
    let nib = ((w >> ((4 * i) as u32)) & 0xf) as u8;
    (((nib & 7) << 1u8) | ((nib & 8) >> 3u8)) as u8
}

/// The black and white color of a bit.
pub open spec fn bw_color(b: usize) -> u8 {
    if b == 0 { 0 } else { 15 }
}

/// Seven black and white pixels: the seven low bits of `d`.
pub open spec fn bw_run(d: u32) -> Seq<u8> {
    Seq::new(7, |k: int| bw_color(((d >> (k as u32)) & 1) as usize))
}

/// The last bit of a black and white run of `d`.
pub open spec fn bw_last(d: u32) -> usize {
    ((d >> 6u32) & 1) as usize
}

/// The 7 colors of part `part` (0-3) of the cells of `w`: in color when
/// `color`, else in black and white; with whether the last cell was in color
/// and the last black and white bit, before and after. A color cell that
/// spans two parts takes, in the second, the black and white of the last bit
/// if the first part was not in color.
pub open spec fn half_run(w: u32, part: int, color: bool, lc: bool, lb: usize) -> (Seq<u8>, bool, usize) {
    let d = if part == 0 {
        w
    } else if part == 1 {
        w >> 7u32
    } else if part == 2 {
        w >> 14u32
    } else {
        (w >> 14u32) >> 7u32
    };
    if color {
        let c = |i: int| cell_color(w, i);
        let e = |i: int| if lc { c(i) } else { bw_color(lb) };
        let s = if part == 0 {
            seq![c(0), c(0), c(0), c(0), c(1), c(1), c(1)]
        } else if part == 1 {
            seq![e(1), c(2), c(2), c(2), c(2), c(3), c(3)]
        } else if part == 2 {
            seq![e(3), e(3), c(4), c(4), c(4), c(4), c(5)]
        } else {
            seq![e(5), e(5), e(5), c(6), c(6), c(6), c(6)]
        };
        (s, true, lb)
    } else {
        (bw_run(d), false, bw_last(d))
    }
}

/// The 14 colors that the pair of cells of `w` gives (the first pair if
/// `!odd`, else the second): its two parts, each in color when its byte's
/// palette bit says so (`color1`, `color2`).
pub open spec fn dh_run(w: u32, odd: bool, color1: bool, color2: bool, lc: bool, lb: usize) -> (Seq<u8>, bool, usize) {
    let (s1, lc1, lb1) = half_run(w, if odd { 2 } else { 0 }, color1, lc, lb);
    let (s2, lc2, lb2) = half_run(w, if odd { 3 } else { 1 }, color2, lc1, lb1);
    (s1 + s2, lc2, lb2)
}

/// The rectangle of the `k`th pixel drawn from column `x` of line `y`, with a
/// magnification `mag` (pixels are half as wide as they are high).
pub open spec fn dh_rect(k: int, x: u16, y: u16, mag: u16, c: u8) -> DrawCommand {
    let mag2 = mag / 2;
    let x0 = (k + x) * mag2;
    let y0 = y * mag;
    DrawCommand::Rectangle(x0 as usize, y0 as usize, (x0 + mag2) as usize, (y0 + mag) as usize, dh_color(c))
}

proof fn lemma_cell_color(w: u32, i: u32)
    requires
        i < 7,
    ensures
        cell_color(w, i as int) < 16,
        (w >> (4 * i)) >> 4u32 == w >> (4 * i + 4),
{
    let nib = ((w >> (4 * i)) & 0xf) as u8;
    assert((((nib & 7) << 1u8) | ((nib & 8) >> 3u8)) < 16) by (bit_vector);
    assert((w >> (4 * i)) >> 4u32 == w >> (4 * i + 4)) by (bit_vector)
        requires
            i < 7,
    ;
}

impl HiresScreen {
    fn push_dh(result: &mut Vec<DrawCommand>, c: u8, x_index: &mut usize, x: u16, y: u16, mag: u16)
        requires
            c < 16,
            *old(x_index) < 14,
            (x + 14) * (mag / 2) + mag / 2 <= usize::MAX,
            (y + 1) * mag <= usize::MAX,
        ensures
            final(result)@ == old(result)@.push(dh_rect(*old(x_index) as int, x, y, mag, c)),
            *final(x_index) == *old(x_index) + 1,
    {
        let color = AColor::to_double_hires_color(c);
        let mag2 = mag / 2;
        proof {
            assert((*x_index + x) * mag2 <= (x + 14) * mag2) by (nonlinear_arith)
                requires
                    *x_index < 14,
            ;
            assert(y * mag <= (y + 1) * mag) by (nonlinear_arith);
            assert(y * mag + mag == (y + 1) * mag) by (nonlinear_arith);
        }
        let x0 = (*x_index + x as usize) * mag2 as usize;
        *x_index = *x_index + 1;
        let x1 = x0 + mag2 as usize;
        let y0 = y as usize * mag as usize;
        let y1 = y0 + mag as usize;
        result.push(DrawCommand::Rectangle(x0, y0, x1, y1, color));
    }

    fn push_bw_run(&mut self, result: &mut Vec<DrawCommand>, d: u32, x_index: &mut usize, x: u16, y: u16, mag: u16)
        requires
            *old(x_index) + 7 <= 14,
            (x + 14) * (mag / 2) + mag / 2 <= usize::MAX,
            (y + 1) * mag <= usize::MAX,
        ensures
            final(result)@ == old(result)@ + Seq::new(7, |k: int| dh_rect(*old(x_index) + k, x, y, mag, bw_run(d)[k])),
            *final(x_index) == *old(x_index) + 7,
            final(self).last_bit == bw_last(d),
            final(self).last_bit <= 1,
            !final(self).last_cell_is_color,
            *final(self) == (HiresScreen { last_bit: final(self).last_bit, last_cell_is_color: false, ..*old(self) }),
    {
        let mut dwordval = d;
        let mut k: u32 = 0;
        assert(d >> 0u32 == d) by (bit_vector);
        let ghost x0 = *x_index;
        let ghost before = result@;
        while k < 7
            invariant
                k <= 7,
                x0 + 7 <= 14,
                *x_index == x0 + k,
                dwordval == d >> k,
                (x + 14) * (mag / 2) + mag / 2 <= usize::MAX,
                (y + 1) * mag <= usize::MAX,
                result@ == before + Seq::new(k as nat, |j: int| dh_rect(x0 + j, x, y, mag, bw_run(d)[j])),
                k > 0 ==> self.last_bit == ((d >> ((k - 1) as u32)) & 1) as usize,
                *self == (HiresScreen { last_bit: self.last_bit, ..*old(self) }),
            decreases 7 - k,
        {
            assert(dwordval & 1 <= 1) by (bit_vector);
            assert((d >> k) >> 1u32 == d >> (k + 1)) by (bit_vector)
                requires
                    k < 7,
            ;
            self.last_bit = (dwordval & 1) as usize;
            let c: u8 = if self.last_bit == 0 { 0 } else { 15 };
            HiresScreen::push_dh(result, c, x_index, x, y, mag);
            dwordval = dwordval >> 1u32;
            k += 1;
            assert(result@ =~= before + Seq::new(k as nat, |j: int| dh_rect(x0 + j, x, y, mag, bw_run(d)[j])));
        }
        self.last_cell_is_color = false;
        assert(bw_last(d) <= 1) by (bit_vector);
    }
}

/// What drawing the cell of the double high resolution byte at `address`
/// gives: the 14 colors, and whether the last cell was in color and the last
/// black and white bit, after. `memory` and `aux_memory` are the main and
/// auxiliary banks; bytes are taken by pairs from an even address.
pub open spec fn dh_address_run(
    memory: Seq<u8>,
    aux_memory: Seq<u8>,
    address: int,
    mixed: bool,
    lc: bool,
    lb: usize,
) -> (Seq<u8>, bool, usize) {
    let odd = address % 2 == 1;
    let a = address - address % 2;
    let v1 = aux_memory[a] as u32;
    let v2 = memory[a] as u32;
    let v3 = aux_memory[a + 1] as u32;
    let v4 = memory[a + 1] as u32;
    let w = dh_word(v1, v2, v3, v4);
    if odd {
        dh_run(w, true, (v3 & 0x80) > 0 || !mixed, (v4 & 0x80) > 0 || !mixed, lc, lb)
    } else {
        dh_run(w, false, (v1 & 0x80) > 0 || !mixed, (v2 & 0x80) > 0 || !mixed, lc, lb)
    }
}

impl HiresScreen {
    /// The 14 rectangles of the pixels of the double high resolution byte at
    /// `address` (AppleWin's algorithm), drawn from column `x` of line `y`. In
    /// RGB mode 2 ("mixed"), a byte without its palette bit is drawn in black
    /// and white.
    pub fn get_double_hires_draw_commands(
        &mut self,
        memory: &Vec<u8>,
        aux_memory: &Vec<u8>,
        mag: u16,
        x: u16,
        y: u16,
        address: usize,
    ) -> (r: Vec<DrawCommand>)
        requires
            address - address % 2 + 1 < memory@.len(),
            address - address % 2 + 1 < aux_memory@.len(),
            old(self).last_bit <= 1,
            (x + 14) * (mag / 2) + mag / 2 <= usize::MAX,
            (y + 1) * mag <= usize::MAX,
        ensures
            ({
                let (colors, lc, lb) = dh_address_run(
                    memory@,
                    aux_memory@,
                    address as int,
                    old(self).dhg_rgb_mode == 2,
                    old(self).last_cell_is_color,
                    old(self).last_bit,
                );
                &&& colors.len() == 14
                &&& r@ == Seq::new(14, |k: int| dh_rect(k, x, y, mag, colors[k]))
                &&& final(self).last_cell_is_color == lc
                &&& final(self).last_bit == lb
            }),
            final(self).last_bit <= 1,
            *final(self) == (HiresScreen {
                last_cell_is_color: final(self).last_cell_is_color,
                last_bit: final(self).last_bit,
                ..*old(self)
            }),
    {
        let is_mixed_mode = self.dhg_rgb_mode == 2;
        let mut result: Vec<DrawCommand> = Vec::new();
        let x_offset = address & 1;
        assert(x_offset == address % 2) by (bit_vector)
            requires
                x_offset == address & 1,
        ;
        let address = address - x_offset;
        let byteval1 = aux_memory[address] as u32;
        let byteval2 = memory[address] as u32;
        let byteval3 = aux_memory[address + 1] as u32;
        let byteval4 = memory[address + 1] as u32;
        let dwordval0: u32 = (byteval1 & 0x7f) | (byteval2 & 0x7f) << 7u32 | (byteval3 & 0x7f) << 14u32 | (byteval4
            & 0x7f) << 21u32;
        let ghost w = dh_word(byteval1, byteval2, byteval3, byteval4);
        assert(dwordval0 == w);
        let mut colors: [u8; 7] = [0; 7];
        let mut dwordval_tmp = dwordval0;
        let mut i: u32 = 0;
        assert(w >> 0u32 == w) by (bit_vector);
        while i < 7
            invariant
                i <= 7,
                dwordval_tmp == w >> (4 * i),
                forall|j: int| 0 <= j < i ==> #[trigger] colors@[j] == cell_color(w, j),
                forall|j: int| 0 <= j < 7 ==> #[trigger] colors@[j] < 16,
            decreases 7 - i,
        {
            proof {
                lemma_cell_color(w, i);
            }
            let nib = (dwordval_tmp & 0xf) as u8;
            colors[i as usize] = ((nib & 7) << 1u8) | ((nib & 8) >> 3u8);
            dwordval_tmp = dwordval_tmp >> 4u32;
            i += 1;
        }
        let mut x_index: usize = 0;
        let ghost lc0 = self.last_cell_is_color;
        let ghost lb0 = self.last_bit;
        let odd = x_offset != 0;
        let color1 = if odd { (byteval3 & 0x80) > 0 || !is_mixed_mode } else { (byteval1 & 0x80) > 0 || !is_mixed_mode };
        let color2 = if odd { (byteval4 & 0x80) > 0 || !is_mixed_mode } else { (byteval2 & 0x80) > 0 || !is_mixed_mode };
        self.dh_half(&mut result, &colors, dwordval0, if odd { 2 } else { 0 }, color1, &mut x_index, x, y, mag);
        let ghost r1 = result@;
        self.dh_half(&mut result, &colors, dwordval0, if odd { 3 } else { 1 }, color2, &mut x_index, x, y, mag);
        proof {
            let (colors_s, lc, lb) = dh_address_run(
                memory@,
                aux_memory@,
                address as int + x_offset,
                old(self).dhg_rgb_mode == 2,
                lc0,
                lb0,
            );
            assert(result@ =~= Seq::new(14, |k: int| dh_rect(k, x, y, mag, colors_s[k])));
        }
        result
    }
}

impl HiresScreen {
    fn push_colors(result: &mut Vec<DrawCommand>, cols: [u8; 7], x_index: &mut usize, x: u16, y: u16, mag: u16)
        requires
            *old(x_index) + 7 <= 14,
            forall|k: int| 0 <= k < 7 ==> #[trigger] cols@[k] < 16,
            (x + 14) * (mag / 2) + mag / 2 <= usize::MAX,
            (y + 1) * mag <= usize::MAX,
        ensures
            final(result)@ == old(result)@ + Seq::new(7, |k: int| dh_rect(*old(x_index) + k, x, y, mag, cols@[k])),
            *final(x_index) == *old(x_index) + 7,
    {
        let ghost x0 = *x_index;
        let ghost before = result@;
        let mut k: usize = 0;
        while k < 7
            invariant
                k <= 7,
                x0 + 7 <= 14,
                *x_index == x0 + k,
                forall|j: int| 0 <= j < 7 ==> #[trigger] cols@[j] < 16,
                (x + 14) * (mag / 2) + mag / 2 <= usize::MAX,
                (y + 1) * mag <= usize::MAX,
                result@ == before + Seq::new(k as nat, |j: int| dh_rect(x0 + j, x, y, mag, cols@[j])),
            decreases 7 - k,
        {
            HiresScreen::push_dh(result, cols[k], x_index, x, y, mag);
            k += 1;
            assert(result@ =~= before + Seq::new(k as nat, |j: int| dh_rect(x0 + j, x, y, mag, cols@[j])));
        }
    }

    fn dh_half(
        &mut self,
        result: &mut Vec<DrawCommand>,
        colors: &[u8; 7],
        w: u32,
        part: u8,
        color: bool,
        x_index: &mut usize,
        x: u16,
        y: u16,
        mag: u16,
    )
        requires
            part < 4,
            *old(x_index) + 7 <= 14,
            forall|j: int| 0 <= j < 7 ==> #[trigger] colors@[j] == cell_color(w, j),
            forall|j: int| 0 <= j < 7 ==> #[trigger] colors@[j] < 16,
            old(self).last_bit <= 1,
            (x + 14) * (mag / 2) + mag / 2 <= usize::MAX,
            (y + 1) * mag <= usize::MAX,
        ensures
            ({
                let (s, lc, lb) = half_run(w, part as int, color, old(self).last_cell_is_color, old(self).last_bit);
                &&& final(result)@ == old(result)@ + Seq::new(7, |k: int| dh_rect(*old(x_index) + k, x, y, mag, s[k]))
                &&& final(self).last_cell_is_color == lc
                &&& final(self).last_bit == lb
            }),
            *final(x_index) == *old(x_index) + 7,
            final(self).last_bit <= 1,
            *final(self) == (HiresScreen {
                last_cell_is_color: final(self).last_cell_is_color,
                last_bit: final(self).last_bit,
                ..*old(self)
            }),
    {
        let ghost x0 = *x_index;
        let ghost before = result@;
        if color {
            let b: u8 = if self.last_bit == 0 { 0 } else { 15 };
            let cols: [u8; 7] = if part == 0 {
                [colors[0], colors[0], colors[0], colors[0], colors[1], colors[1], colors[1]]
            } else if part == 1 {
                let e = if self.last_cell_is_color { colors[1] } else { b };
                [e, colors[2], colors[2], colors[2], colors[2], colors[3], colors[3]]
            } else if part == 2 {
                let e = if self.last_cell_is_color { colors[3] } else { b };
                [e, e, colors[4], colors[4], colors[4], colors[4], colors[5]]
            } else {
                let e = if self.last_cell_is_color { colors[5] } else { b };
                [e, e, e, colors[6], colors[6], colors[6], colors[6]]
            };
            HiresScreen::push_colors(result, cols, x_index, x, y, mag);
            self.last_cell_is_color = true;
            proof {
                let (s, lc, lb) = half_run(w, part as int, color, old(self).last_cell_is_color, old(self).last_bit);
                assert(cols@ =~= s);
            }
        } else {
            let d = if part == 0 {
                w
            } else if part == 1 {
                w >> 7u32
            } else if part == 2 {
                w >> 14u32
            } else {
                (w >> 14u32) >> 7u32
            };
            self.push_bw_run(result, d, x_index, x, y, mag);
        }
    }
}

/// The rectangles of the first `n` cells (14 pixels each, 40 per line) of
/// the double high resolution page at `start`, with the state of the drawing
/// after them.
pub open spec fn dh_page(
    memory: Seq<u8>,
    aux_memory: Seq<u8>,
    mag: u16,
    start: int,
    mixed: bool,
    lc: bool,
    lb: usize,
    n: int,
) -> (Seq<DrawCommand>, bool, usize)
    decreases n,
{
    if n <= 0 {
        (Seq::empty(), lc, lb)
    } else {
        let (prev, lc1, lb1) = dh_page(memory, aux_memory, mag, start, mixed, lc, lb, n - 1);
        let y = (n - 1) / 40;
        let c = (n - 1) % 40;
        let (colors, lc2, lb2) = dh_address_run(memory, aux_memory, start + line_base(y) + c, mixed, lc1, lb1);
        (prev + Seq::new(14, |k: int| dh_rect(k, (14 * c) as u16, y as u16, mag, colors[k])), lc2, lb2)
    }
}

impl HiresScreen {
    /// The rectangles of the whole double high resolution page (1, or 2 if
    /// `page2`), line by line, 40 cells of 14 pixels per line.
    pub fn calculate_double_hires2(&mut self, memory: &Vec<u8>, aux_memory: &Vec<u8>, mag: u16, page2: bool) -> (r: Vec<DrawCommand>)
        requires
            memory@.len() >= (if page2 { 0x6000int } else { 0x4000 }),
            aux_memory@.len() >= (if page2 { 0x6000int } else { 0x4000 }),
            old(self).last_bit <= 1,
        ensures
            ({
                let (cmds, lc, lb) = dh_page(
                    memory@,
                    aux_memory@,
                    mag,
                    if page2 { 0x4000 } else { 0x2000 },
                    old(self).dhg_rgb_mode == 2,
                    old(self).last_cell_is_color,
                    old(self).last_bit,
                    7680int,
                );
                &&& r@ == cmds
                &&& final(self).last_cell_is_color == lc
                &&& final(self).last_bit == lb
            }),
            *final(self) == (HiresScreen {
                last_cell_is_color: final(self).last_cell_is_color,
                last_bit: final(self).last_bit,
                ..*old(self)
            }),
    {
        let mut result: Vec<DrawCommand> = Vec::new();
        let mut hgr = Hgr::default();
        let start: usize = if page2 { 0x4000 } else { 0x2000 };
        let ghost st = start as int;
        let ghost mixed = old(self).dhg_rgb_mode == 2;
        let ghost lc0 = old(self).last_cell_is_color;
        let ghost lb0 = old(self).last_bit;
        let mut y: usize = 0;
        while y < 192
            invariant
                y <= 192,
                hgr.interleave == y / 8,
                hgr.consecutive == y % 8,
                start == st,
                st <= 0x4000,
                st + 0x2000 <= memory@.len(),
                st + 0x2000 <= aux_memory@.len(),
                self.last_bit <= 1,
                mixed == (self.dhg_rgb_mode == 2),
                *self == (HiresScreen { last_cell_is_color: self.last_cell_is_color, last_bit: self.last_bit, ..*old(self) }),
                ({
                    let (cmds, lc, lb) = dh_page(memory@, aux_memory@, mag, st, mixed, lc0, lb0, 40 * y);
                    &&& result@ == cmds
                    &&& self.last_cell_is_color == lc
                    &&& self.last_bit == lb
                }),
            decreases 192 - y,
        {
            let a = match hgr.next() {
                Some(a) => a,
                None => 0,
            };
            proof {
                assert(y / 8 * 8 + y % 8 == y);
                lemma_line_base(y as int);
            }
            let mut x: usize = 0;
            let mut address = a;
            let mut c: usize = 0;
            while x < 560
                invariant
                    y < 192,
                    c <= 40,
                    x == 14 * c,
                    address == a + c,
                    a == line_base(y as int),
                    0 <= a <= 0x1fd0,
                    start == st,
                    st <= 0x4000,
                    st + 0x2000 <= memory@.len(),
                    st + 0x2000 <= aux_memory@.len(),
                    self.last_bit <= 1,
                    mixed == (self.dhg_rgb_mode == 2),
                    *self == (HiresScreen { last_cell_is_color: self.last_cell_is_color, last_bit: self.last_bit, ..*old(self) }),
                    ({
                        let (cmds, lc, lb) = dh_page(memory@, aux_memory@, mag, st, mixed, lc0, lb0, 40 * y + c);
                        &&& result@ == cmds
                        &&& self.last_cell_is_color == lc
                        &&& self.last_bit == lb
                    }),
                decreases 560 - x,
            {
                proof {
                    assert((x + 14) * (mag / 2) + mag / 2 <= usize::MAX) by (nonlinear_arith)
                        requires
                            x <= 546,
                    ;
                    assert((y + 1) * mag <= usize::MAX) by (nonlinear_arith)
                        requires
                            y < 192,
                    ;
                    assert((40 * y + c) / 40 == y && (40 * y + c) % 40 == c);
                }
                let mut commands = self.get_double_hires_draw_commands(memory, aux_memory, mag, x as u16, y as u16, start + address);
                x += commands.len();
                result.append(&mut commands);
                address += 1;
                c += 1;
            }
            y += 1;
        }
        result
    }
}

/// The rectangles of the pixels above line `height`, magnified by `mag` (a
/// pixel is drawn two units high, which bands the picture).
pub open spec fn hires_rects(ps: Seq<Pixel>, height: u16, mag: u16) -> Seq<DrawCommand>
    decreases ps.len(),
{
    if ps.len() == 0 {
        Seq::empty()
    } else {
        let prev = hires_rects(ps.drop_last(), height, mag);
        let p = ps.last();
        if p.y < height {
            let x = p.x * mag;
            let y = p.y * mag;
            prev.push(DrawCommand::Rectangle(x as usize, y as usize, (x + mag) as usize, (y + 2) as usize, p.color))
        } else {
            prev
        }
    }
}

impl HiresScreen {
    /// The rectangles of the high resolution page (1, or 2 if `page2`) above
    /// line `height`, magnified by `mag`.
    pub fn calculate_hires(&mut self, memory: &[u8], height: u16, mag: u16, page2: bool) -> (r: Vec<DrawCommand>)
        requires
            memory@.len() >= (if page2 { 0x6000int } else { 0x4000 }),
        ensures
            ({
                let start = if page2 { 0x4000int } else { 0x2000 };
                r@ == hires_rects(pixels_of(memory@.subrange(start, start + 0x2000), 0x1000), height, mag)
            }),
            *final(self) == *old(self),
    {
        let page: &[u8] = if page2 { &memory[0x4000..0x6000] } else { &memory[0x2000..0x4000] };
        let pixels = HiresScreen::calculate_pixels(page);
        let mut result: Vec<DrawCommand> = Vec::new();
        let mut k: usize = 0;
        while k < pixels.len()
            invariant
                k <= pixels@.len(),
                forall|q: int| 0 <= q < pixels@.len() ==> (#[trigger] pixels@[q]).x < 0x2000 * 7 + 14 && pixels@[q].y < 192,
                result@ == hires_rects(pixels@.take(k as int), height, mag),
            decreases pixels@.len() - k,
        {
            let pixel = pixels[k];
            proof {
                assert(pixels@.take(k + 1).drop_last() =~= pixels@.take(k as int));
            }
            if pixel.y < height {
                proof {
                    assert(pixel.x * mag + mag <= usize::MAX) by (nonlinear_arith)
                        requires
                            pixel.x < 0x2000 * 7 + 14,
                            mag <= 0xffff,
                    ;
                    assert(pixel.y * mag + 2 <= usize::MAX) by (nonlinear_arith)
                        requires
                            pixel.y < 192,
                            mag <= 0xffff,
                    ;
                }
                let x = pixel.x as usize * mag as usize;
                let y = pixel.y as usize * mag as usize;
                result.push(DrawCommand::Rectangle(x, y, x + mag as usize, y + 2, pixel.color));
            }
            k += 1;
        }
        assert(pixels@.take(pixels@.len() as int) =~= pixels@);
        result
    }
}

/// The 28 colors of the pair of cells at `a2` (even) of the double high
/// resolution page: a window slides over their bits (see `window_color`).
pub open spec fn dh_window_colors(memory: Seq<u8>, aux_memory: Seq<u8>, a2: int) -> Seq<AColor> {
    let mask = a2 % 256;
    let beginning = mask == 0 || mask == 0x80 || mask == 0x28 || mask == 0xa8 || mask == 0x50;
    let end = mask == 0x26 || mask == 0xa6 || mask == 0x4e || mask == 0xce || mask == 0x76 || mask == 0xf6;
    let left = if beginning { 0u8 } else { memory[a2 - 1] };
    let right = if end { 0u8 } else { aux_memory[a2 + 2] };
    let bits = dh_bits(left, aux_memory[a2], memory[a2], aux_memory[a2 + 1], memory[a2 + 1], right);
    Seq::new(28, |i: int| dh_color(window_color(bits, i)))
}

/// The rectangles of the first `n` pairs of cells (20 per line, 28 pixels
/// each) of the double high resolution page at `start`: each pixel two units
/// wide apart and four high apart.
pub open spec fn dh_window_page(memory: Seq<u8>, aux_memory: Seq<u8>, start: int, n: int) -> Seq<DrawCommand>
    decreases n,
{
    if n <= 0 {
        Seq::empty()
    } else {
        let y = (n - 1) / 20;
        let b = (n - 1) % 20;
        let colors = dh_window_colors(memory, aux_memory, start + line_base(y) + 2 * b);
        dh_window_page(memory, aux_memory, start, n - 1) + Seq::new(
            28,
            |j: int|
                DrawCommand::Rectangle(
                    (2 * (28 * b + j)) as usize,
                    (4 * y) as usize,
                    (2 * (28 * b + j) + 1) as usize,
                    (4 * y + 3) as usize,
                    colors[j],
                ),
        )
    }
}

impl HiresScreen {
    /// The rectangles of the whole double high resolution page (1, or 2 if
    /// `page2`), each pair of cells colored by a window sliding over its bits.
    pub fn calculate_double_hires(&self, memory: &Vec<u8>, aux_memory: &Vec<u8>, page2: bool) -> (r: Vec<DrawCommand>)
        requires
            memory@.len() >= (if page2 { 0x6000int } else { 0x4000 }),
            aux_memory@.len() >= (if page2 { 0x6000int } else { 0x4000 }),
        ensures
            r@ == dh_window_page(memory@, aux_memory@, if page2 { 0x4000 } else { 0x2000 }, 3840int),
    {
        let mut result: Vec<DrawCommand> = Vec::new();
        let start: usize = if page2 { 0x4000 } else { 0x2000 };
        let ghost st = start as int;
        let mut hgr = Hgr::default();
        let mut y: usize = 0;
        while y < 192
            invariant
                y <= 192,
                hgr.interleave == y / 8,
                hgr.consecutive == y % 8,
                start == st,
                st <= 0x4000,
                st + 0x2000 <= memory@.len(),
                st + 0x2000 <= aux_memory@.len(),
                result@ == dh_window_page(memory@, aux_memory@, st, 20 * y),
            decreases 192 - y,
        {
            let a = match hgr.next() {
                Some(a) => a,
                None => 0,
            };
            proof {
                assert(y / 8 * 8 + y % 8 == y);
                lemma_line_base(y as int);
            }
            let mut x: usize = 0;
            let mut b: usize = 0;
            while b < 20
                invariant
                    y < 192,
                    b <= 20,
                    x == 28 * b,
                    a == line_base(y as int),
                    0 <= a <= 0x1fd0,
                    start == st,
                    st <= 0x4000,
                    st + 0x2000 <= memory@.len(),
                    st + 0x2000 <= aux_memory@.len(),
                    result@ == dh_window_page(memory@, aux_memory@, st, 20 * y + b),
                decreases 20 - b,
            {
                let a2 = start + a + 2 * b;
                let mask = a2 & 0xff;
                assert(mask == a2 % 256) by (bit_vector)
                    requires
                        mask == a2 & 0xff,
                ;
                let byte0 = aux_memory[a2];
                let byte1 = memory[a2];
                let byte2 = aux_memory[a2 + 1];
                let byte3 = memory[a2 + 1];
                let beginning = mask == 0 || mask == 0x80 || mask == 0x28 || mask == 0xa8 || mask == 0x50 || mask
                    == 0x50;
                let end = mask == 0x26 || mask == 0xa6 || mask == 0x4e || mask == 0xce || mask == 0x76 || mask
                    == 0xf6;
                let left_byte = if beginning { 0 } else { memory[a2 - 1] };
                let right_byte = if end { 0 } else { aux_memory[a2 + 2] };
                let bits = HiresScreen::bits(left_byte, byte0, byte1, byte2, byte3, right_byte);
                let colors = HiresScreen::calculate_double_hires_colors_from_bits(bits);
                let ghost before = result@;
                let mut j: usize = 0;
                while j < 28
                    invariant
                        y < 192,
                        b < 20,
                        j <= 28,
                        x == 28 * b + j,
                        colors@.len() == 28,
                        result@ == before + Seq::new(
                            j as nat,
                            |q: int|
                                DrawCommand::Rectangle(
                                    (2 * (28 * b + q)) as usize,
                                    (4 * y) as usize,
                                    (2 * (28 * b + q) + 1) as usize,
                                    (4 * y + 3) as usize,
                                    colors@[q],
                                ),
                        ),
                    decreases 28 - j,
                {
                    let x0 = x * 2;
                    let x1 = x0 + 1;
                    let y0 = y * 4;
                    let y1 = y0 + 3;
                    result.push(DrawCommand::Rectangle(x0, y0, x1, y1, colors[j]));
                    x += 1;
                    j += 1;
                    assert(result@ =~= before + Seq::new(
                        j as nat,
                        |q: int|
                            DrawCommand::Rectangle(
                                (2 * (28 * b + q)) as usize,
                                (4 * y) as usize,
                                (2 * (28 * b + q) + 1) as usize,
                                (4 * y + 3) as usize,
                                colors@[q],
                            ),
                    ));
                }
                proof {
                    assert((20 * y + b) / 20 == y && (20 * y + b) % 20 == b);
                    assert(colors@ =~= dh_window_colors(memory@, aux_memory@, a2 as int));
                }
                b += 1;
            }
            y += 1;
        }
        result
    }
}

/// The character at column `x` (of 40 or 80) of row `y` of the text screen.
pub open spec fn text_char(memory: Seq<u8>, aux_memory: Seq<u8>, is_80: bool, page2: bool, x: int, y: int) -> u8 {
    let column = if is_80 { x / 2 } else { x };
    let address = TEXT_MODE_ADDRESSES@[y] + column + (if page2 { 0x400int } else { 0 });
    if is_80 && x % 2 == 0 {
        aux_memory[address]
    } else {
        memory[address]
    }
}

/// The rectangle of pixel `k` (7 per row of 8 rows) of the character at
/// column `x` of row `y`, drawn from the font `text_rom`.
pub open spec fn text_rect(
    memory: Seq<u8>,
    aux_memory: Seq<u8>,
    text_rom: Seq<u8>,
    mag: u16,
    is_80: bool,
    page2: bool,
    x: int,
    y: int,
    k: int,
) -> DrawCommand {
    let yy = k / 7;
    let xx = k % 7;
    let c = text_char(memory, aux_memory, is_80, page2, x, y);
    let bits = text_rom[yy + c * 8];
    let pixel = (bits >> (xx as u8)) & 1;
    let mag_width = if is_80 { mag / 2 } else { mag };
    let x0 = (x * 7 + xx) * mag_width;
    let y0 = (y * 8 + yy) * mag;
    DrawCommand::Rectangle(
        x0 as usize,
        y0 as usize,
        (x0 + mag) as usize,
        (y0 + mag) as usize,
        if pixel == 0 { AColor::White } else { AColor::Black },
    )
}

/// The rectangles of the first `n` characters of the text screen from row
/// `start` on, `columns` per row.
pub open spec fn text_rects(
    memory: Seq<u8>,
    aux_memory: Seq<u8>,
    text_rom: Seq<u8>,
    mag: u16,
    is_80: bool,
    page2: bool,
    start: int,
    columns: int,
    n: int,
) -> Seq<DrawCommand>
    decreases n,
{
    if n <= 0 {
        Seq::empty()
    } else {
        let y = start + (n - 1) / columns;
        let x = (n - 1) % columns;
        text_rects(memory, aux_memory, text_rom, mag, is_80, page2, start, columns, n - 1) + Seq::new(
            56,
            |k: int| text_rect(memory, aux_memory, text_rom, mag, is_80, page2, x, y, k),
        )
    }
}

impl HiresScreen {
    /// The rectangles of the text screen (its last 4 rows if `mixed`), each
    /// character drawn from the font `text_rom` (8 bytes per character, one
    /// per row of pixels, least significant bit on the left).
    pub fn calculate_text(
        &mut self,
        memory: &Vec<u8>,
        aux_memory: &Vec<u8>,
        text_rom: &[u8],
        mag: u16,
        is_80: bool,
        mixed: bool,
        page2: bool,
    ) -> (r: Vec<DrawCommand>)
        requires
            memory@.len() >= 0xc00,
            is_80 ==> aux_memory@.len() >= 0xc00,
            text_rom@.len() >= 0x800,
            192 * mag <= 0xffff,
            (if is_80 { 559 * (mag / 2) } else { 279 * mag }) + mag <= 0xffff,
        ensures
            r@ == text_rects(
                memory@,
                aux_memory@,
                text_rom@,
                mag,
                is_80,
                page2,
                if mixed { 20 } else { 0 },
                if is_80 { 80 } else { 40 },
                (if mixed { 4int } else { 24 }) * (if is_80 { 80int } else { 40 }),
            ),
            *final(self) == *old(self),
    {
        let mut result: Vec<DrawCommand> = Vec::new();
        let start: u8 = if mixed { 20 } else { 0 };
        let columns: u8 = if is_80 { 80 } else { 40 };
        let mag_width = if is_80 { mag / 2 } else { mag };
        let mut y: u8 = start;
        while y < 24
            invariant
                start <= y <= 24,
                start == (if mixed { 20u8 } else { 0u8 }),
                columns == (if is_80 { 80u8 } else { 40u8 }),
                mag_width == (if is_80 { mag / 2 } else { mag }),
                memory@.len() >= 0xc00,
                is_80 ==> aux_memory@.len() >= 0xc00,
                text_rom@.len() >= 0x800,
                192 * mag <= 0xffff,
                (columns * 7 - 1) * mag_width + mag <= 0xffff,
                result@ == text_rects(memory@, aux_memory@, text_rom@, mag, is_80, page2, start as int, columns as int, (y - start) * columns),
            decreases 24 - y,
        {
            let mut x: u8 = 0;
            while x < columns
                invariant
                    start <= y < 24,
                    x <= columns,
                    start == (if mixed { 20u8 } else { 0u8 }),
                    columns == (if is_80 { 80u8 } else { 40u8 }),
                    mag_width == (if is_80 { mag / 2 } else { mag }),
                    memory@.len() >= 0xc00,
                    is_80 ==> aux_memory@.len() >= 0xc00,
                    text_rom@.len() >= 0x800,
                    192 * mag <= 0xffff,
                    (columns * 7 - 1) * mag_width + mag <= 0xffff,
                    result@ == text_rects(memory@, aux_memory@, text_rom@, mag, is_80, page2, start as int, columns as int, (y - start) * columns + x),
                decreases columns - x,
            {
                let c_a = if is_80 {
                    let address = text_coordinates_to_address(x / 2, y, page2) as usize;
                    if x % 2 == 0 {
                        aux_memory[address]
                    } else {
                        memory[address]
                    }
                } else {
                    let address = text_coordinates_to_address(x, y, page2) as usize;
                    memory[address]
                };
                let ghost before = result@;
                let mut yy: u8 = 0;
                while yy < 8
                    invariant
                        start <= y < 24,
                        x < columns,
                        yy <= 8,
                        columns == (if is_80 { 80u8 } else { 40u8 }),
                        mag_width == (if is_80 { mag / 2 } else { mag }),
                        text_rom@.len() >= 0x800,
                        192 * mag <= 0xffff,
                        (columns * 7 - 1) * mag_width + mag <= 0xffff,
                        c_a == text_char(memory@, aux_memory@, is_80, page2, x as int, y as int),
                        result@ == before + Seq::new(
                            7 * yy as nat,
                            |k: int| text_rect(memory@, aux_memory@, text_rom@, mag, is_80, page2, x as int, y as int, k),
                        ),
                    decreases 8 - yy,
                {
                    let ci = c_a as usize;
                    assert((ci << 3usize) == ci * 8) by (bit_vector)
                        requires
                            ci < 256,
                    ;
                    let bits = text_rom[yy as usize + (ci << 3usize)];
                    let mut xx: u8 = 0;
                    while xx < 7
                        invariant
                            start <= y < 24,
                            x < columns,
                            yy < 8,
                            xx <= 7,
                            columns == (if is_80 { 80u8 } else { 40u8 }),
                            mag_width == (if is_80 { mag / 2 } else { mag }),
                            text_rom@.len() >= 0x800,
                            192 * mag <= 0xffff,
                            (columns * 7 - 1) * mag_width + mag <= 0xffff,
                            c_a == text_char(memory@, aux_memory@, is_80, page2, x as int, y as int),
                            bits == text_rom@[yy + c_a * 8],
                            result@ == before + Seq::new(
                                (7 * yy + xx) as nat,
                                |k: int| text_rect(memory@, aux_memory@, text_rom@, mag, is_80, page2, x as int, y as int, k),
                            ),
                        decreases 7 - xx,
                    {
                        let pixel = (bits >> xx) & 1;
                        let color = if pixel == 0 { AColor::White } else { AColor::Black };
                        proof {
                            assert((x * 7 + xx) * mag_width <= (columns * 7 - 1) * mag_width) by (nonlinear_arith)
                                requires
                                    x < columns,
                                    xx < 7,
                            ;
                            assert((y * 8 + yy) * mag + mag <= 192 * mag) by (nonlinear_arith)
                                requires
                                    y < 24,
                                    yy < 8,
                            ;
                            let k = 7 * yy + xx;
                            assert(k / 7 == yy && k % 7 == xx);
                        }
                        let x0: u16 = (x as u16 * 7 + xx as u16) * mag_width;
                        let y0: u16 = (y as u16 * 8 + yy as u16) * mag;
                        let x1 = x0 + mag;
                        let y1 = y0 + mag;
                        result.push(DrawCommand::Rectangle(x0 as usize, y0 as usize, x1 as usize, y1 as usize, color));
                        xx += 1;
                        assert(result@ =~= before + Seq::new(
                            (7 * yy + xx) as nat,
                            |k: int| text_rect(memory@, aux_memory@, text_rom@, mag, is_80, page2, x as int, y as int, k),
                        ));
                    }
                    yy += 1;
                }
                proof {
                    let n = (y - start) * columns + x;
                    assert(n / (columns as int) == y - start && n % (columns as int) == x) by (nonlinear_arith)
                        requires
                            n == (y - start) * columns + x,
                            x < columns,
                            y >= start,
                    ;
                }
                x += 1;
            }
            proof {
                assert((y - start) * columns + columns == (y + 1 - start) * columns) by (nonlinear_arith);
            }
            y += 1;
        }
        result
    }
}

/// The double high resolution mode is on: annunciator 3, 80 columns,
/// graphics, full screen and high resolution (written in any order).
pub open spec fn dhgr_on(memory: Seq<u8>) -> bool {
    &&& memory[AN3_STATUS as int] & 0x20 != 0
    &&& switch_on(memory[EIGHTY_COLUMNS_STATUS as int])
    &&& !switch_on(memory[TEXT_STATUS as int])
    &&& !switch_on(memory[MIXED_STATUS as int])
    &&& switch_on(memory[HIRES_STATUS as int])
}

/// The font and magnification can draw the text screen.
pub open spec fn text_ok(memory: Seq<u8>, aux_memory: Seq<u8>, text_rom: Seq<u8>, mag: u16, is_80: bool) -> bool {
    &&& memory.len() >= 0xc00
    &&& (is_80 ==> aux_memory.len() >= 0xc00)
    &&& text_rom.len() >= 0x800
    &&& 192 * mag <= 0xffff
    &&& (if is_80 { 559 * (mag / 2) } else { 279 * mag }) + mag <= 0xffff
}

impl HiresScreen {
    /// The rectangles that draw the screen as the soft switches in `memory`
    /// (the main bank; `aux_memory` is the auxiliary one) select it: double
    /// high resolution, text, or high resolution with or without 4 rows of
    /// text. Nothing for an empty memory.
    pub fn get_draw_commands(&mut self, memory: &Vec<u8>, aux_memory: &Vec<u8>, text_rom: &[u8], mag: u16) -> (r: Vec<DrawCommand>)
        requires
            memory@.len() == 0 || memory@.len() > 0xc046,
            memory@.len() > 0xc046 && dhgr_on(memory@) ==> memory@.len() >= 0x4000 && aux_memory@.len() >= 0x4000
                && old(self).last_bit <= 1,
            memory@.len() > 0xc046 && !dhgr_on(memory@) ==> {
                let page2 = switch_on(memory@[PAGE_2_STATUS as int]);
                let is_80 = switch_on(memory@[EIGHTY_COLUMNS_STATUS as int]);
                let text = switch_on(memory@[TEXT_STATUS as int]);
                let hires = switch_on(memory@[HIRES_STATUS as int]);
                let mixed = switch_on(memory@[MIXED_STATUS as int]);
                &&& (text || (hires && mixed) ==> text_ok(memory@, aux_memory@, text_rom@, mag, is_80))
                &&& (!text && hires ==> memory@.len() >= (if page2 { 0x6000int } else { 0x4000 }))
            },
        ensures
            memory@.len() == 0 ==> r@.len() == 0 && *final(self) == *old(self),
            memory@.len() > 0 && dhgr_on(memory@) ==> {
                let (cmds, lc, lb) = dh_page(
                    memory@,
                    aux_memory@,
                    mag,
                    0x2000,
                    old(self).dhg_rgb_mode == 2,
                    old(self).last_cell_is_color,
                    old(self).last_bit,
                    7680int,
                );
                &&& r@ == cmds
                &&& *final(self) == (HiresScreen { last_cell_is_color: lc, last_bit: lb, ..*old(self) })
            },
            memory@.len() > 0 && !dhgr_on(memory@) ==> {
                let page2 = switch_on(memory@[PAGE_2_STATUS as int]);
                let is_80 = switch_on(memory@[EIGHTY_COLUMNS_STATUS as int]);
                let text = switch_on(memory@[TEXT_STATUS as int]);
                let hires = switch_on(memory@[HIRES_STATUS as int]);
                let mixed = switch_on(memory@[MIXED_STATUS as int]);
                let start = if page2 { 0x4000int } else { 0x2000 };
                let pixels = pixels_of(memory@.subrange(start, start + 0x2000), 0x1000);
                let columns: int = if is_80 { 80 } else { 40 };
                &&& *final(self) == *old(self)
                &&& r@ == if text {
                    text_rects(memory@, aux_memory@, text_rom@, mag, is_80, page2, 0, columns, 24 * columns)
                } else if hires && mixed {
                    hires_rects(pixels, HIRES_HEIGHT_MIXED, mag) + text_rects(
                        memory@,
                        aux_memory@,
                        text_rom@,
                        mag,
                        is_80,
                        page2,
                        20,
                        columns,
                        4 * columns,
                    )
                } else if hires {
                    hires_rects(pixels, HIRES_HEIGHT, mag)
                } else {
                    Seq::empty()
                }
            },
    {
        if memory.len() == 0 {
            return Vec::new();
        }
        let an3 = memory[AN3_STATUS as usize] & 0b0010_0000 != 0;
        let eighty = soft_switch(memory.as_slice(), EIGHTY_COLUMNS_STATUS);
        let is_graphics = !soft_switch(memory.as_slice(), TEXT_STATUS);
        let full_screen = !soft_switch(memory.as_slice(), MIXED_STATUS);
        let is_hires = soft_switch(memory.as_slice(), HIRES_STATUS);
        if an3 && eighty && is_graphics && full_screen && is_graphics && is_hires {
            self.calculate_double_hires2(memory, aux_memory, mag, false)
        } else {
            let page2 = soft_switch(memory.as_slice(), PAGE_2_STATUS);
            let is_text = soft_switch(memory.as_slice(), TEXT_STATUS);
            let is_mixed = soft_switch(memory.as_slice(), MIXED_STATUS);
            let is_80 = soft_switch(memory.as_slice(), EIGHTY_COLUMNS_STATUS);
            if is_text {
                self.calculate_text(memory, aux_memory, text_rom, mag, is_80, false, page2)
            } else if is_hires {
                if is_mixed {
                    let mut draw_commands = self.calculate_hires(memory.as_slice(), HIRES_HEIGHT_MIXED, mag, page2);
                    let mut text = self.calculate_text(memory, aux_memory, text_rom, mag, is_80, true, page2);
                    draw_commands.append(&mut text);
                    draw_commands
                } else {
                    self.calculate_hires(memory.as_slice(), HIRES_HEIGHT, mag, page2)
                }
            } else {
                Vec::new()
            }
        }
    }
}

} // verus!

