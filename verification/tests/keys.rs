//! Keystrokes as the host takes them.
use slopty_ui::keys::{
    key_code, key_event, mods, KeyAction, KeyCode, Keystroke, Modifiers, Mods,
};

const ALT: Mods = Mods { shift: false, alt: true, ctrl: false, logo: false };
const SHIFT: Mods = Mods { shift: true, alt: false, ctrl: false, logo: false };

/// With ⌥ as Alt the event carries the key without ⌥ and the flag, so the host prefixes
/// an escape; otherwise the layout's symbol goes as typed, ⌥ consumed.
#[test]
fn option_as_alt_rides_on_the_event() {
    let alt_b = Keystroke {
        modifiers: Modifiers { alt: true, ..Modifiers::default() },
        key: "b".to_owned(),
        key_char: Some("∫".to_owned()),
    };
    let typed = key_event(1, &alt_b, false, false);
    assert_eq!((typed.mods, typed.consumed_mods), (ALT, ALT));
    assert_eq!((typed.text.as_deref(), typed.option_as_alt), (Some("∫"), false));
    let alt = key_event(2, &alt_b, false, true);
    assert_eq!((alt.mods, alt.consumed_mods), (ALT, Mods::empty()));
    assert_eq!(
        (alt.text.as_deref(), alt.unshifted, alt.option_as_alt),
        (Some("b"), Some('b'), true)
    );
    let shifted = Keystroke {
        modifiers: Modifiers { alt: true, shift: true, ..Modifiers::default() },
        key_char: Some("ı".to_owned()),
        ..alt_b.clone()
    };
    let alt = key_event(3, &shifted, false, true);
    assert_eq!((alt.text.as_deref(), alt.consumed_mods), (Some("B"), SHIFT));
    // A symbol key has no text without ⌥; the host prefixes its unshifted codepoint.
    let alt_1 = Keystroke { key: "1".to_owned(), key_char: Some("¡".to_owned()), ..alt_b.clone() };
    let alt = key_event(4, &alt_1, false, true);
    assert_eq!((alt.text, alt.unshifted, alt.consumed_mods), (None, Some('1'), Mods::empty()));
    // The flag means nothing without ⌥ down.
    let plain =
        Keystroke { modifiers: Modifiers::default(), key_char: Some("b".to_owned()), ..alt_b };
    assert!(!key_event(5, &plain, false, true).option_as_alt);
}

#[test]
fn names_map_to_codes() {
    assert_eq!(key_code("a"), KeyCode::A);
    assert_eq!(key_code("7"), KeyCode::Digit7);
    assert_eq!(key_code("enter"), KeyCode::Enter);
    assert_eq!(key_code("pageup"), KeyCode::PageUp);
    assert_eq!(key_code("f12"), KeyCode::F12);
    assert_eq!(key_code("/"), KeyCode::Slash);
    assert_eq!(key_code("wat"), KeyCode::Unidentified);
}

#[test]
fn a_held_key_repeats() {
    let a = Keystroke {
        modifiers: Modifiers::default(),
        key: "a".to_owned(),
        key_char: Some("a".to_owned()),
    };
    let event = key_event(9, &a, true, false);
    assert_eq!((event.seq, event.action, event.code), (9, KeyAction::Repeat, KeyCode::A));
    assert_eq!(key_event(9, &a, false, false).action, KeyAction::Press);
}

#[test]
fn the_platform_key_is_the_logo() {
    let held = Modifiers { platform: true, control: true, ..Modifiers::default() };
    assert_eq!(mods(held), Mods { shift: false, alt: false, ctrl: true, logo: true });
}
