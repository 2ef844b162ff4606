use apple2::ui::keyboard::{character_key, named_key, special_named_key, NamedKey, SpecialKeyMsg};

#[test]
fn letters_are_upper_case_with_the_high_bit() {
    assert_eq!(character_key(b'a', false, false), Some(0xc1));
    assert_eq!(character_key(b'a', true, false), Some(0xc1));
    assert_eq!(character_key(b'a', false, true), Some(0x81));
    assert_eq!(character_key(b'y', false, false), Some(0xd9));
    assert_eq!(character_key(b'z', false, false), Some(0xda));
    assert_eq!(character_key(b'z', false, true), Some(0x9a));
}

#[test]
fn digits_and_symbols() {
    assert_eq!(character_key(b'0', false, false), Some(0xb0));
    assert_eq!(character_key(b'0', true, false), Some(0xa9));
    assert_eq!(character_key(b'2', true, false), Some(0x80));
    assert_eq!(character_key(b'8', true, false), Some(0xaa));
    assert_eq!(character_key(b'-', false, false), Some(0xad));
    assert_eq!(character_key(b'-', true, false), Some(0xdf));
    assert_eq!(character_key(b'/', true, false), Some(0xbf));
    assert_eq!(character_key(b'A', false, false), None);
}

#[test]
fn named_keys() {
    assert_eq!(named_key(NamedKey::Enter), Some(0x8d));
    assert_eq!(named_key(NamedKey::Backspace), Some(0x88));
    assert_eq!(named_key(NamedKey::ArrowLeft), Some(0x88));
    assert_eq!(named_key(NamedKey::Escape), Some(0x9b));
    assert_eq!(named_key(NamedKey::Alt), None);
    assert_eq!(special_named_key(NamedKey::Alt), Some(SpecialKeyMsg::AltLeft));
    assert_eq!(special_named_key(NamedKey::AltGraph), Some(SpecialKeyMsg::AltRight));
    assert_eq!(special_named_key(NamedKey::Enter), None);
}

use apple2::keyboard::{key_to_char, KeyCode, Modifiers};

#[test]
fn window_keys_to_apple_codes() {
    let none = Modifiers { shift: false, ctrl: false };
    let shift = Modifiers { shift: true, ctrl: false };
    let ctrl = Modifiers { shift: false, ctrl: true };
    assert_eq!(key_to_char(&KeyCode::A, &none), 0xc1);
    assert_eq!(key_to_char(&KeyCode::Z, &none), 0xda);
    assert_eq!(key_to_char(&KeyCode::A, &ctrl), 0x81);
    assert_eq!(key_to_char(&KeyCode::Z, &ctrl), 0x9a);
    assert_eq!(key_to_char(&KeyCode::A, &shift), 0xc1);
    assert_eq!(key_to_char(&KeyCode::Num6, &shift), 0xbf);
    assert_eq!(key_to_char(&KeyCode::Num6, &none), 0xb6);
    assert_eq!(key_to_char(&KeyCode::Minus, &shift), 0xdf);
    assert_eq!(key_to_char(&KeyCode::Enter, &ctrl), 0x8d);
    assert_eq!(key_to_char(&KeyCode::Delete, &none), 0xff);
    assert_eq!(key_to_char(&KeyCode::Other, &none), 0xbf);
}

use apple2::ui::keyboard::{handle_keyboard, KeyPress};

#[test]
fn keys_as_the_window_reports_them() {
    assert_eq!(handle_keyboard(KeyPress::Named(NamedKey::Enter), false, false), Some(0x8d));
    assert_eq!(handle_keyboard(KeyPress::Character(b'q'), false, true), Some(0x91));
    assert_eq!(handle_keyboard(KeyPress::Character(b'q'), false, false), Some(0xd1));
    assert_eq!(handle_keyboard(KeyPress::Unidentified, false, false), None);
}
