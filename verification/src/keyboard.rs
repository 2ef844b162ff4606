use vstd::prelude::*;

verus! {

/// The keys of the keyboard of the windowing library that the emulator
/// maps to Apple ][ key codes; `Other` is any other key.
#[derive(Clone, Copy, Debug, PartialEq, Eq, Structural)]
pub enum KeyCode {
    ArrowLeft,
    Backspace,
    ArrowRight,
    ArrowDown,
    ArrowUp,
    Escape,
    Tab,
    Enter,
    Space,
    Colon,
    Comma,
    Backslash,
    OpenBracket,
    CloseBracket,
    Minus,
    Period,
    Plus,
    Equals,
    Semicolon,
    Num0,
    Num1,
    Num2,
    Num3,
    Num4,
    Num5,
    Num6,
    Num7,
    Num8,
    Num9,
    Delete,
    A,
    B,
    C,
    D,
    E,
    F,
    G,
    H,
    I,
    J,
    K,
    L,
    M,
    N,
    O,
    P,
    Q,
    R,
    S,
    T,
    U,
    V,
    W,
    X,
    Y,
    Z,
    Other,
}

/// The modifier keys held with a key.
#[derive(Clone, Copy, Debug, PartialEq, Eq, Structural)]
pub struct Modifiers {
    pub shift: bool,
    pub ctrl: bool,
}

/// The Apple ][ code of a key without modifiers: letters in upper case,
/// digits and punctuation with the high bit set, `?` for any other key.
pub open spec fn plain_code(key: KeyCode) -> u8 {
    match key {
        KeyCode::ArrowLeft => 0x88u8,
        KeyCode::Backspace => 0x88u8,
        KeyCode::ArrowRight => 0x95u8,
        KeyCode::ArrowDown => 0x8au8,
        KeyCode::ArrowUp => 0x8bu8,
        KeyCode::Escape => 0x9bu8,
        KeyCode::Tab => 0x89u8,
        KeyCode::Enter => 0x8du8,
        KeyCode::Space => 0xa0u8,
        KeyCode::Colon => 0xbau8,
        KeyCode::Comma => 0xacu8,
        KeyCode::Backslash => 0xdcu8,
        KeyCode::OpenBracket => 0xdbu8,
        KeyCode::CloseBracket => 0xddu8,
        KeyCode::Minus => 0xadu8,
        KeyCode::Period => 0xaeu8,
        KeyCode::Plus => 0xabu8,
        KeyCode::Equals => 0xbdu8,
        KeyCode::Semicolon => 0xbbu8,
        KeyCode::Num0 => 0xb0u8,
        KeyCode::Num1 => 0xb1u8,
        KeyCode::Num2 => 0xb2u8,
        KeyCode::Num3 => 0xb3u8,
        KeyCode::Num4 => 0xb4u8,
        KeyCode::Num5 => 0xb5u8,
        KeyCode::Num6 => 0xb6u8,
        KeyCode::Num7 => 0xb7u8,
        KeyCode::Num8 => 0xb8u8,
        KeyCode::Num9 => 0xb9u8,
        KeyCode::Delete => 0xffu8,
        KeyCode::A => 0xc1u8,
        KeyCode::B => 0xc2u8,
        KeyCode::C => 0xc3u8,
        KeyCode::D => 0xc4u8,
        KeyCode::E => 0xc5u8,
        KeyCode::F => 0xc6u8,
        KeyCode::G => 0xc7u8,
        KeyCode::H => 0xc8u8,
        KeyCode::I => 0xc9u8,
        KeyCode::J => 0xcau8,
        KeyCode::K => 0xcbu8,
        KeyCode::L => 0xccu8,
        KeyCode::M => 0xcdu8,
        KeyCode::N => 0xceu8,
        KeyCode::O => 0xcfu8,
        KeyCode::P => 0xd0u8,
        KeyCode::Q => 0xd1u8,
        KeyCode::R => 0xd2u8,
        KeyCode::S => 0xd3u8,
        KeyCode::T => 0xd4u8,
        KeyCode::U => 0xd5u8,
        KeyCode::V => 0xd6u8,
        KeyCode::W => 0xd7u8,
        KeyCode::X => 0xd8u8,
        KeyCode::Y => 0xd9u8,
        KeyCode::Z => 0xdau8,
        _ => 0xbfu8,
    }
}

/// The Apple ][ code of a key held with shift (the symbols above the digits)
/// or control (the control codes of the letters).
pub open spec fn key_code(key: KeyCode, modifiers: Modifiers) -> u8 {
    if modifiers.shift {
        match key {
            KeyCode::Num0 => 0xa9u8,
            KeyCode::Num1 => 0xa1u8,
            KeyCode::Num2 => 0xa2u8,
            KeyCode::Num3 => 0xa3u8,
            KeyCode::Num4 => 0xa4u8,
            KeyCode::Num5 => 0xa5u8,
            KeyCode::Num6 => 0xbfu8,
            KeyCode::Num7 => 0xa6u8,
            KeyCode::Num8 => 0xa7u8,
            KeyCode::Num9 => 0xa8u8,
            KeyCode::Minus => 0xdfu8,
            _ => plain_code(key),
        }
    } else if modifiers.ctrl {
        match key {
            KeyCode::A => 0x81u8,
            KeyCode::B => 0x82u8,
            KeyCode::C => 0x83u8,
            KeyCode::D => 0x84u8,
            KeyCode::E => 0x85u8,
            KeyCode::F => 0x86u8,
            KeyCode::G => 0x87u8,
            KeyCode::H => 0x88u8,
            KeyCode::I => 0x89u8,
            KeyCode::J => 0x8au8,
            KeyCode::K => 0x8bu8,
            KeyCode::L => 0x8cu8,
            KeyCode::M => 0x8du8,
            KeyCode::N => 0x8eu8,
            KeyCode::O => 0x8fu8,
            KeyCode::P => 0x90u8,
            KeyCode::Q => 0x91u8,
            KeyCode::R => 0x92u8,
            KeyCode::S => 0x93u8,
            KeyCode::T => 0x94u8,
            KeyCode::U => 0x95u8,
            KeyCode::V => 0x96u8,
            KeyCode::W => 0x97u8,
            KeyCode::X => 0x98u8,
            KeyCode::Y => 0x99u8,
            KeyCode::Z => 0x9au8,
            _ => plain_code(key),
        }
    } else {
        plain_code(key)
    }
}

fn k(key: &KeyCode) -> (r: u8)
    ensures
        r == plain_code(*key),
{
    match key {
        KeyCode::ArrowLeft => 0x88u8,
        KeyCode::Backspace => 0x88u8,
        KeyCode::ArrowRight => 0x95u8,
        KeyCode::ArrowDown => 0x8au8,
        KeyCode::ArrowUp => 0x8bu8,
        KeyCode::Escape => 0x9bu8,
        KeyCode::Tab => 0x89u8,
        KeyCode::Enter => 0x8du8,
        KeyCode::Space => 0xa0u8,
        KeyCode::Colon => 0xbau8,
        KeyCode::Comma => 0xacu8,
        KeyCode::Backslash => 0xdcu8,
        KeyCode::OpenBracket => 0xdbu8,
        KeyCode::CloseBracket => 0xddu8,
        KeyCode::Minus => 0xadu8,
        KeyCode::Period => 0xaeu8,
        KeyCode::Plus => 0xabu8,
        KeyCode::Equals => 0xbdu8,
        KeyCode::Semicolon => 0xbbu8,
        KeyCode::Num0 => 0xb0u8,
        KeyCode::Num1 => 0xb1u8,
        KeyCode::Num2 => 0xb2u8,
        KeyCode::Num3 => 0xb3u8,
        KeyCode::Num4 => 0xb4u8,
        KeyCode::Num5 => 0xb5u8,
        KeyCode::Num6 => 0xb6u8,
        KeyCode::Num7 => 0xb7u8,
        KeyCode::Num8 => 0xb8u8,
        KeyCode::Num9 => 0xb9u8,
        KeyCode::Delete => 0xffu8,
        KeyCode::A => 0xc1u8,
        KeyCode::B => 0xc2u8,
        KeyCode::C => 0xc3u8,
        KeyCode::D => 0xc4u8,
        KeyCode::E => 0xc5u8,
        KeyCode::F => 0xc6u8,
        KeyCode::G => 0xc7u8,
        KeyCode::H => 0xc8u8,
        KeyCode::I => 0xc9u8,
        KeyCode::J => 0xcau8,
        KeyCode::K => 0xcbu8,
        KeyCode::L => 0xccu8,
        KeyCode::M => 0xcdu8,
        KeyCode::N => 0xceu8,
        KeyCode::O => 0xcfu8,
        KeyCode::P => 0xd0u8,
        KeyCode::Q => 0xd1u8,
        KeyCode::R => 0xd2u8,
        KeyCode::S => 0xd3u8,
        KeyCode::T => 0xd4u8,
        KeyCode::U => 0xd5u8,
        KeyCode::V => 0xd6u8,
        KeyCode::W => 0xd7u8,
        KeyCode::X => 0xd8u8,
        KeyCode::Y => 0xd9u8,
        KeyCode::Z => 0xdau8,
        _ => 0xbf,
    }
}

/// See `key_code`.
pub fn key_to_char(key: &KeyCode, modifiers: &Modifiers) -> (r: u8)
    ensures
        r == key_code(*key, *modifiers),
{
    if modifiers.shift {
        match key {
            KeyCode::Num0 => 0xa9u8,
            KeyCode::Num1 => 0xa1u8,
            KeyCode::Num2 => 0xa2u8,
            KeyCode::Num3 => 0xa3u8,
            KeyCode::Num4 => 0xa4u8,
            KeyCode::Num5 => 0xa5u8,
            KeyCode::Num6 => 0xbfu8,
            KeyCode::Num7 => 0xa6u8,
            KeyCode::Num8 => 0xa7u8,
            KeyCode::Num9 => 0xa8u8,
            KeyCode::Minus => 0xdfu8,
            _ => k(key),
        }
    } else if modifiers.ctrl {
        match key {
            KeyCode::A => 0x81u8,
            KeyCode::B => 0x82u8,
            KeyCode::C => 0x83u8,
            KeyCode::D => 0x84u8,
            KeyCode::E => 0x85u8,
            KeyCode::F => 0x86u8,
            KeyCode::G => 0x87u8,
            KeyCode::H => 0x88u8,
            KeyCode::I => 0x89u8,
            KeyCode::J => 0x8au8,
            KeyCode::K => 0x8bu8,
            KeyCode::L => 0x8cu8,
            KeyCode::M => 0x8du8,
            KeyCode::N => 0x8eu8,
            KeyCode::O => 0x8fu8,
            KeyCode::P => 0x90u8,
            KeyCode::Q => 0x91u8,
            KeyCode::R => 0x92u8,
            KeyCode::S => 0x93u8,
            KeyCode::T => 0x94u8,
            KeyCode::U => 0x95u8,
            KeyCode::V => 0x96u8,
            KeyCode::W => 0x97u8,
            KeyCode::X => 0x98u8,
            KeyCode::Y => 0x99u8,
            KeyCode::Z => 0x9au8,
            _ => k(key),
        }
    } else {
        k(key)
    }
}

/// The character printed on a key that types one: the space, punctuation,
/// digits and letters (in upper case).
pub open spec fn printed_char(key: KeyCode) -> Option<char> {
    match key {
        KeyCode::Space => Some(' '),
        KeyCode::Colon => Some(':'),
        KeyCode::Comma => Some(','),
        KeyCode::Backslash => Some('\\'),
        KeyCode::OpenBracket => Some('['),
        KeyCode::CloseBracket => Some(']'),
        KeyCode::Minus => Some('-'),
        KeyCode::Period => Some('.'),
        KeyCode::Plus => Some('+'),
        KeyCode::Equals => Some('='),
        KeyCode::Semicolon => Some(';'),
        KeyCode::Num0 => Some('0'),
        KeyCode::Num1 => Some('1'),
        KeyCode::Num2 => Some('2'),
        KeyCode::Num3 => Some('3'),
        KeyCode::Num4 => Some('4'),
        KeyCode::Num5 => Some('5'),
        KeyCode::Num6 => Some('6'),
        KeyCode::Num7 => Some('7'),
        KeyCode::Num8 => Some('8'),
        KeyCode::Num9 => Some('9'),
        KeyCode::A => Some('A'),
        KeyCode::B => Some('B'),
        KeyCode::C => Some('C'),
        KeyCode::D => Some('D'),
        KeyCode::E => Some('E'),
        KeyCode::F => Some('F'),
        KeyCode::G => Some('G'),
        KeyCode::H => Some('H'),
        KeyCode::I => Some('I'),
        KeyCode::J => Some('J'),
        KeyCode::K => Some('K'),
        KeyCode::L => Some('L'),
        KeyCode::M => Some('M'),
        KeyCode::N => Some('N'),
        KeyCode::O => Some('O'),
        KeyCode::P => Some('P'),
        KeyCode::Q => Some('Q'),
        KeyCode::R => Some('R'),
        KeyCode::S => Some('S'),
        KeyCode::T => Some('T'),
        KeyCode::U => Some('U'),
        KeyCode::V => Some('V'),
        KeyCode::W => Some('W'),
        KeyCode::X => Some('X'),
        KeyCode::Y => Some('Y'),
        KeyCode::Z => Some('Z'),
        _ => None,
    }
}

/// A key that types a character gives, with no modifier, the ASCII code of
/// the character printed on it with the high bit set; a letter held with
/// control gives the control code of the letter (its ASCII code less 0x40),
/// with the high bit set.
pub proof fn lemma_keys_type_their_characters(key: KeyCode)
    ensures
        printed_char(key) is Some ==> key_code(key, Modifiers { shift: false, ctrl: false }) == (
        printed_char(key)->0 as int) + 0x80,
        printed_char(key) is Some && 'A' <= printed_char(key)->0 <= 'Z' ==> key_code(
            key,
            Modifiers { shift: false, ctrl: true },
        ) == (printed_char(key)->0 as int) - 0x40 + 0x80,
{
}

/// The symbol that a key types with shift, where it is not its own
/// character: the symbols over the digits and the underscore over the minus.
pub open spec fn shifted_char(key: KeyCode) -> Option<char> {
    match key {
        KeyCode::Num0 => Some(')'),
        KeyCode::Num1 => Some('!'),
        KeyCode::Num2 => Some('"'),
        KeyCode::Num3 => Some('#'),
        KeyCode::Num4 => Some('$'),
        KeyCode::Num5 => Some('%'),
        KeyCode::Num6 => Some('?'),
        KeyCode::Num7 => Some('&'),
        KeyCode::Num8 => Some('\''),
        KeyCode::Num9 => Some('('),
        KeyCode::Minus => Some('_'),
        _ => None,
    }
}

/// With shift, the digit keys and the minus key type their shifted symbol
/// (its ASCII code with the high bit set) and the other keys what they type
/// without it; shift takes precedence over control.
pub proof fn lemma_shifted_keys(key: KeyCode, ctrl: bool)
    ensures
        shifted_char(key) is Some ==> key_code(key, Modifiers { shift: true, ctrl }) == (shifted_char(key)->0 as int)
            + 0x80,
        shifted_char(key) is None ==> key_code(key, Modifiers { shift: true, ctrl }) == key_code(
            key,
            Modifiers { shift: false, ctrl: false },
        ),
{
}

} // verus!
