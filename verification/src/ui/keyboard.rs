use vstd::prelude::*;

verus! {

/// Keys that the emulator handles itself rather than handing them to the
/// Apple ][ (the Alt keys stand for the joystick buttons).
#[derive(Clone, Copy, Debug, PartialEq, Eq, Structural)]
pub enum SpecialKeyMsg {
    AltLeft,
    AltRight,
}

/// The named (non-character) keys of a keyboard that the emulator looks at;
/// `Other` is any other one.
#[derive(Clone, Copy, Debug, PartialEq, Eq, Structural)]
pub enum NamedKey {
    Enter,
    Tab,
    Space,
    ArrowDown,
    ArrowLeft,
    ArrowRight,
    ArrowUp,
    Backspace,
    Escape,
    Alt,
    AltGraph,
    Other,
}

/// The Apple ][ key code of the character key whose first character has the
/// code `n`, with the shift and control modifiers: letters a to z give their
/// upper-case code (control: the control code), digits and punctuation their
/// code with the high bit set, or the shifted symbol of a US keyboard.
pub open spec fn character_code(n: u8, shift: bool, control: bool) -> Option<u8> {
    if 0x61 <= n <= 0x7a {
        Some(
            if control {
                (n + 0x20) as u8
            } else {
                (n + 0x60) as u8
            },
        )
    } else if n == 0x2d {
        Some(if shift { 0xdfu8 } else { 0xadu8 })
    } else if n == 0x3d {
        Some(if shift { 0xabu8 } else { 0xbdu8 })
    } else if n == 0x5b {
        Some(if shift { 0xfbu8 } else { 0xdbu8 })
    } else if n == 0x5c {
        Some(if shift { 0xfcu8 } else { 0xdcu8 })
    } else if n == 0x5d {
        Some(if shift { 0xfdu8 } else { 0xddu8 })
    } else if n == 0x3b {
        Some(if shift { 0xbau8 } else { 0xbbu8 })
    } else if n == 0x27 {
        Some(if shift { 0xa2u8 } else { 0xa7u8 })
    } else if n == 0x2c {
        Some(if shift { 0xbcu8 } else { 0xacu8 })
    } else if n == 0x2e {
        Some(if shift { 0xbeu8 } else { 0xaeu8 })
    } else if n == 0x2f {
        Some(if shift { 0xbfu8 } else { 0xafu8 })
    } else if 0x30 <= n <= 0x39 {
        Some(if shift { [0xa9u8, 0xa1, 0x80, 0xa3, 0xa4, 0xa5, 0xa6, 0xa7, 0xaa, 0xa8]@[n - 0x30] } else { (n + 0x80) as u8 })
    } else {
        None
    }
}

/// See `character_code`.
pub fn character_key(n: u8, shift: bool, control: bool) -> (r: Option<u8>)
    ensures
        r == character_code(n, shift, control),
{
    if 0x61 <= n && n <= 0x7a {
        // a..z
        Some(if control { n + 0x20 } else if shift { n + 0x60 } else { n + 0x60 })
    } else {
        match n {
            0x2d => Some(if shift { 0xdf } else { 0xad }),
            0x3d => Some(if shift { 0xab } else { 0xbd }),
            0x5b => Some(if shift { 0xfb } else { 0xdb }),
            0x5c => Some(if shift { 0xfc } else { 0xdc }),
            0x5d => Some(if shift { 0xfd } else { 0xdd }),
            0x3b => Some(if shift { 0xba } else { 0xbb }),
            0x27 => Some(if shift { 0xa2 } else { 0xa7 }),
            0x2c => Some(if shift { 0xbc } else { 0xac }),
            0x2e => Some(if shift { 0xbe } else { 0xae }),
            0x2f => Some(if shift { 0xbf } else { 0xaf }),
            0x30 => Some(if shift { 0xa9 } else { n + 0x80 }),
            0x31 => Some(if shift { 0xa1 } else { n + 0x80 }),
            0x32 => Some(if shift { 0x80 } else { n + 0x80 }),
            0x33 => Some(if shift { 0xa3 } else { n + 0x80 }),
            0x34 => Some(if shift { 0xa4 } else { n + 0x80 }),
            0x35 => Some(if shift { 0xa5 } else { n + 0x80 }),
            0x36 => Some(if shift { 0xa6 } else { n + 0x80 }),
            0x37 => Some(if shift { 0xa7 } else { n + 0x80 }),
            0x38 => Some(if shift { 0xaa } else { n + 0x80 }),
            0x39 => Some(if shift { 0xa8 } else { n + 0x80 }),
            _ => None,
        }
    }
}

/// The emulator's own meaning of a named key, if it has one.
pub fn special_named_key(named: NamedKey) -> (r: Option<SpecialKeyMsg>)
    ensures
        r == (match named {
            NamedKey::Alt => Some(SpecialKeyMsg::AltLeft),
            NamedKey::AltGraph => Some(SpecialKeyMsg::AltRight),
            _ => None,
        }),
{
    match named {
        NamedKey::Alt => Some(SpecialKeyMsg::AltLeft),
        NamedKey::AltGraph => Some(SpecialKeyMsg::AltRight),
        _ => None,
    }
}

/// The Apple ][ key code of a named key, if it has one.
pub fn named_key(named: NamedKey) -> (r: Option<u8>)
    ensures
        r == (match named {
            NamedKey::Enter => Some(0x8du8),
            NamedKey::Tab => Some(0x89u8),
            NamedKey::Space => Some(0xa0u8),
            NamedKey::ArrowDown => Some(0x8au8),
            NamedKey::ArrowLeft => Some(0x88u8),
            NamedKey::ArrowRight => Some(0x95u8),
            NamedKey::ArrowUp => Some(0x8bu8),
            NamedKey::Backspace => Some(0x88u8),
            NamedKey::Escape => Some(0x9bu8),
            _ => None,
        }),
{
    match named {
        NamedKey::Enter => Some(0x8d),
        NamedKey::Tab => Some(0x89),
        NamedKey::Space => Some(0xa0),
        NamedKey::ArrowDown => Some(0x8a),
        NamedKey::ArrowLeft => Some(0x88),
        NamedKey::ArrowRight => Some(0x95),
        NamedKey::ArrowUp => Some(0x8b),
        NamedKey::Backspace => Some(0x88),
        NamedKey::Escape => Some(0x9b),
        _ => None,
    }
}

/// A key as the window reports it: a named key, a character key (the code of
/// its first character), or one it could not identify.
#[derive(Clone, Copy, Debug, PartialEq, Eq, Structural)]
pub enum KeyPress {
    Named(NamedKey),
    Character(u8),
    Unidentified,
}

/// The Apple ][ key code of a key pressed with the shift and control
/// modifiers, if it has one.
pub fn handle_keyboard(key: KeyPress, shift: bool, control: bool) -> (r: Option<u8>)
    ensures
        r == (match key {
            KeyPress::Named(k) => match k {
                NamedKey::Enter => Some(0x8du8),
                NamedKey::Tab => Some(0x89u8),
                NamedKey::Space => Some(0xa0u8),
                NamedKey::ArrowDown => Some(0x8au8),
                NamedKey::ArrowLeft => Some(0x88u8),
                NamedKey::ArrowRight => Some(0x95u8),
                NamedKey::ArrowUp => Some(0x8bu8),
                NamedKey::Backspace => Some(0x88u8),
                NamedKey::Escape => Some(0x9bu8),
                _ => None,
            },
            KeyPress::Character(c) => character_code(c, shift, control),
            KeyPress::Unidentified => None,
        }),
{
    match key {
        KeyPress::Named(k) => named_key(k),
        KeyPress::Character(c) => character_key(c, shift, control),
        KeyPress::Unidentified => None,
    }
}

} // verus!
