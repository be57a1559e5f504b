//! Keystrokes as key events. The host's engine does the actual encoding (legacy, kitty,
//! application modes), so all that is done here is name the physical key and pass the text the
//! layout produced.
use vstd::prelude::*;

use crate::text::{copy_of, chars_of, held, same_text};

verus! {

/// The modifier keys held at a keystroke.
#[derive(Clone, Copy, PartialEq, Eq, Structural, Debug)]
pub struct Modifiers {
    pub control: bool,
    pub alt: bool,
    pub shift: bool,
    /// Command on a Mac.
    pub platform: bool,
    pub function: bool,
}

impl Default for Modifiers {
    fn default() -> (r: Modifiers)
        ensures
            r == (Modifiers {
                control: false,
                alt: false,
                shift: false,
                platform: false,
                function: false,
            }),
    {
        Modifiers { control: false, alt: false, shift: false, platform: false, function: false }
    }
}

/// The modifiers an event carries.
#[derive(Clone, Copy, PartialEq, Eq, Structural, Debug)]
pub struct Mods {
    pub shift: bool,
    pub alt: bool,
    pub ctrl: bool,
    /// Command on a Mac.
    pub logo: bool,
}

impl Mods {
    /// None of them.
    pub open spec fn none() -> Mods {
        Mods { shift: false, alt: false, ctrl: false, logo: false }
    }

    /// None of them.
    pub fn empty() -> (r: Mods)
        ensures
            r == Mods::none(),
    {
        Mods { shift: false, alt: false, ctrl: false, logo: false }
    }
}

/// What happened to the key.
#[derive(Clone, Copy, PartialEq, Eq, Structural, Debug)]
pub enum KeyAction {
    Press,
    Repeat,
}

/// A physical key, by the place it has on a US keyboard.
#[derive(Clone, Copy, PartialEq, Eq, Structural, Debug)]
pub enum KeyCode {
    A,
    B,
    C,
    D,
    E,
    F,
    G,
    H,
    I,
    J,
    K,
    L,
    M,
    N,
    O,
    P,
    Q,
    R,
    S,
    T,
    U,
    V,
    W,
    X,
    Y,
    Z,
    Digit0,
    Digit1,
    Digit2,
    Digit3,
    Digit4,
    Digit5,
    Digit6,
    Digit7,
    Digit8,
    Digit9,
    Minus,
    Equal,
    BracketLeft,
    BracketRight,
    Backslash,
    Semicolon,
    Quote,
    Comma,
    Period,
    Slash,
    Backquote,
    Enter,
    Tab,
    Space,
    Backspace,
    Escape,
    Delete,
    Insert,
    ArrowUp,
    ArrowDown,
    ArrowLeft,
    ArrowRight,
    Home,
    End,
    PageUp,
    PageDown,
    CapsLock,
    F1,
    F2,
    F3,
    F4,
    F5,
    F6,
    F7,
    F8,
    F9,
    F10,
    F11,
    F12,
    F13,
    F14,
    F15,
    F16,
    F17,
    F18,
    F19,
    F20,
    Unidentified,
}

/// A keystroke as the window system hands it on: the key's name, lowercase and unshifted, and
/// the text the layout made of it.
#[derive(Debug, Clone)]
pub struct Keystroke {
    pub modifiers: Modifiers,
    pub key: String,
    pub key_char: Option<String>,
}

/// A key event for the host's engine.
#[derive(Debug)]
pub struct KeyEvent {
    pub seq: u64,
    pub action: KeyAction,
    pub code: KeyCode,
    pub mods: Mods,
    /// The modifiers that went into the text.
    pub consumed_mods: Mods,
    pub text: Option<String>,
    /// The key's own character.
    pub unshifted: Option<char>,
    pub composing: bool,
    pub option_as_alt: bool,
}

/// The modifiers an event carries for those held.
pub open spec fn mods_of(m: Modifiers) -> Mods {
    Mods { shift: m.shift, alt: m.alt, ctrl: m.control, logo: m.platform }
}

/// Map the modifiers held.
pub fn mods(m: Modifiers) -> (r: Mods)
    ensures
        r == mods_of(m),
{
    Mods { shift: m.shift, alt: m.alt, ctrl: m.control, logo: m.platform }
}

/// An ASCII capital as its small letter, anything else as it is.
pub open spec fn lower(c: char) -> char {
    if 'A' <= c <= 'Z' {
        (c as u32 + 32) as char
    } else {
        c
    }
}

/// An ASCII small letter as its capital, anything else as it is.
pub open spec fn upper(c: char) -> char {
    if 'a' <= c <= 'z' {
        (c as u32 - 32) as char
    } else {
        c
    }
}

/// An ASCII letter.
pub open spec fn is_letter(c: char) -> bool {
    'a' <= c <= 'z' || 'A' <= c <= 'Z'
}

/// The key whose character, unshifted, is `c`.
pub open spec fn char_code(c: char) -> KeyCode {
    match c {
        'a' => KeyCode::A,
        'b' => KeyCode::B,
        'c' => KeyCode::C,
        'd' => KeyCode::D,
        'e' => KeyCode::E,
        'f' => KeyCode::F,
        'g' => KeyCode::G,
        'h' => KeyCode::H,
        'i' => KeyCode::I,
        'j' => KeyCode::J,
        'k' => KeyCode::K,
        'l' => KeyCode::L,
        'm' => KeyCode::M,
        'n' => KeyCode::N,
        'o' => KeyCode::O,
        'p' => KeyCode::P,
        'q' => KeyCode::Q,
        'r' => KeyCode::R,
        's' => KeyCode::S,
        't' => KeyCode::T,
        'u' => KeyCode::U,
        'v' => KeyCode::V,
        'w' => KeyCode::W,
        'x' => KeyCode::X,
        'y' => KeyCode::Y,
        'z' => KeyCode::Z,
        '0' => KeyCode::Digit0,
        '1' => KeyCode::Digit1,
        '2' => KeyCode::Digit2,
        '3' => KeyCode::Digit3,
        '4' => KeyCode::Digit4,
        '5' => KeyCode::Digit5,
        '6' => KeyCode::Digit6,
        '7' => KeyCode::Digit7,
        '8' => KeyCode::Digit8,
        '9' => KeyCode::Digit9,
        '-' => KeyCode::Minus,
        '=' => KeyCode::Equal,
        '[' => KeyCode::BracketLeft,
        ']' => KeyCode::BracketRight,
        '\\' => KeyCode::Backslash,
        ';' => KeyCode::Semicolon,
        '\'' => KeyCode::Quote,
        ',' => KeyCode::Comma,
        '.' => KeyCode::Period,
        '/' => KeyCode::Slash,
        '`' => KeyCode::Backquote,
        ' ' => KeyCode::Space,
        _ => KeyCode::Unidentified,
    }
}

/// The key with the name `key`, of more than one character.
pub open spec fn name_code(key: Seq<char>) -> KeyCode {
    if key == "enter"@ {
        KeyCode::Enter
    } else if key == "tab"@ {
        KeyCode::Tab
    } else if key == "space"@ {
        KeyCode::Space
    } else if key == "backspace"@ {
        KeyCode::Backspace
    } else if key == "escape"@ {
        KeyCode::Escape
    } else if key == "delete"@ {
        KeyCode::Delete
    } else if key == "insert"@ {
        KeyCode::Insert
    } else if key == "up"@ {
        KeyCode::ArrowUp
    } else if key == "down"@ {
        KeyCode::ArrowDown
    } else if key == "left"@ {
        KeyCode::ArrowLeft
    } else if key == "right"@ {
        KeyCode::ArrowRight
    } else if key == "home"@ {
        KeyCode::Home
    } else if key == "end"@ {
        KeyCode::End
    } else if key == "pageup"@ {
        KeyCode::PageUp
    } else if key == "pagedown"@ {
        KeyCode::PageDown
    } else if key == "capslock"@ {
        KeyCode::CapsLock
    } else if key == "f1"@ {
        KeyCode::F1
    } else if key == "f2"@ {
        KeyCode::F2
    } else if key == "f3"@ {
        KeyCode::F3
    } else if key == "f4"@ {
        KeyCode::F4
    } else if key == "f5"@ {
        KeyCode::F5
    } else if key == "f6"@ {
        KeyCode::F6
    } else if key == "f7"@ {
        KeyCode::F7
    } else if key == "f8"@ {
        KeyCode::F8
    } else if key == "f9"@ {
        KeyCode::F9
    } else if key == "f10"@ {
        KeyCode::F10
    } else if key == "f11"@ {
        KeyCode::F11
    } else if key == "f12"@ {
        KeyCode::F12
    } else if key == "f13"@ {
        KeyCode::F13
    } else if key == "f14"@ {
        KeyCode::F14
    } else if key == "f15"@ {
        KeyCode::F15
    } else if key == "f16"@ {
        KeyCode::F16
    } else if key == "f17"@ {
        KeyCode::F17
    } else if key == "f18"@ {
        KeyCode::F18
    } else if key == "f19"@ {
        KeyCode::F19
    } else if key == "f20"@ {
        KeyCode::F20
    } else {
        KeyCode::Unidentified
    }
}

/// The only character of `key`.
pub open spec fn lone(key: Seq<char>) -> Option<char> {
    if key.len() == 1 {
        Some(key[0])
    } else {
        None
    }
}

/// The key with the name `key`.
pub open spec fn code_of(key: Seq<char>) -> KeyCode {
    match lone(key) {
        Some(c) => char_code(lower(c)),
        None => name_code(key),
    }
}

/// The only character of `key`.
fn lone_char(key: &str) -> (r: Option<char>)
    ensures
        r == lone(key@),
{
    let chars = chars_of(key);
    if chars.len() == 1 {
        Some(chars[0])
    } else {
        None
    }
}

/// Map a key's name (lowercase, unshifted) to a physical key.
pub fn key_code(key: &str) -> (r: KeyCode)
    ensures
        r == code_of(key@),
{
    if let Some(c) = lone_char(key) {
        return single_char(c);
    }
    if same_text(key, "enter") {
        KeyCode::Enter
    } else if same_text(key, "tab") {
        KeyCode::Tab
    } else if same_text(key, "space") {
        KeyCode::Space
    } else if same_text(key, "backspace") {
        KeyCode::Backspace
    } else if same_text(key, "escape") {
        KeyCode::Escape
    } else if same_text(key, "delete") {
        KeyCode::Delete
    } else if same_text(key, "insert") {
        KeyCode::Insert
    } else if same_text(key, "up") {
        KeyCode::ArrowUp
    } else if same_text(key, "down") {
        KeyCode::ArrowDown
    } else if same_text(key, "left") {
        KeyCode::ArrowLeft
    } else if same_text(key, "right") {
        KeyCode::ArrowRight
    } else if same_text(key, "home") {
        KeyCode::Home
    } else if same_text(key, "end") {
        KeyCode::End
    } else if same_text(key, "pageup") {
        KeyCode::PageUp
    } else if same_text(key, "pagedown") {
        KeyCode::PageDown
    } else if same_text(key, "capslock") {
        KeyCode::CapsLock
    } else if same_text(key, "f1") {
        KeyCode::F1
    } else if same_text(key, "f2") {
        KeyCode::F2
    } else if same_text(key, "f3") {
        KeyCode::F3
    } else if same_text(key, "f4") {
        KeyCode::F4
    } else if same_text(key, "f5") {
        KeyCode::F5
    } else if same_text(key, "f6") {
        KeyCode::F6
    } else if same_text(key, "f7") {
        KeyCode::F7
    } else if same_text(key, "f8") {
        KeyCode::F8
    } else if same_text(key, "f9") {
        KeyCode::F9
    } else if same_text(key, "f10") {
        KeyCode::F10
    } else if same_text(key, "f11") {
        KeyCode::F11
    } else if same_text(key, "f12") {
        KeyCode::F12
    } else if same_text(key, "f13") {
        KeyCode::F13
    } else if same_text(key, "f14") {
        KeyCode::F14
    } else if same_text(key, "f15") {
        KeyCode::F15
    } else if same_text(key, "f16") {
        KeyCode::F16
    } else if same_text(key, "f17") {
        KeyCode::F17
    } else if same_text(key, "f18") {
        KeyCode::F18
    } else if same_text(key, "f19") {
        KeyCode::F19
    } else if same_text(key, "f20") {
        KeyCode::F20
    } else {
        KeyCode::Unidentified
    }
}

/// Map a key's character, in either case.
fn single_char(c: char) -> (r: KeyCode)
    ensures
        r == char_code(lower(c)),
{
    match c {
        'a' | 'A' => KeyCode::A,
        'b' | 'B' => KeyCode::B,
        'c' | 'C' => KeyCode::C,
        'd' | 'D' => KeyCode::D,
        'e' | 'E' => KeyCode::E,
        'f' | 'F' => KeyCode::F,
        'g' | 'G' => KeyCode::G,
        'h' | 'H' => KeyCode::H,
        'i' | 'I' => KeyCode::I,
        'j' | 'J' => KeyCode::J,
        'k' | 'K' => KeyCode::K,
        'l' | 'L' => KeyCode::L,
        'm' | 'M' => KeyCode::M,
        'n' | 'N' => KeyCode::N,
        'o' | 'O' => KeyCode::O,
        'p' | 'P' => KeyCode::P,
        'q' | 'Q' => KeyCode::Q,
        'r' | 'R' => KeyCode::R,
        's' | 'S' => KeyCode::S,
        't' | 'T' => KeyCode::T,
        'u' | 'U' => KeyCode::U,
        'v' | 'V' => KeyCode::V,
        'w' | 'W' => KeyCode::W,
        'x' | 'X' => KeyCode::X,
        'y' | 'Y' => KeyCode::Y,
        'z' | 'Z' => KeyCode::Z,
        '0' => KeyCode::Digit0,
        '1' => KeyCode::Digit1,
        '2' => KeyCode::Digit2,
        '3' => KeyCode::Digit3,
        '4' => KeyCode::Digit4,
        '5' => KeyCode::Digit5,
        '6' => KeyCode::Digit6,
        '7' => KeyCode::Digit7,
        '8' => KeyCode::Digit8,
        '9' => KeyCode::Digit9,
        '-' => KeyCode::Minus,
        '=' => KeyCode::Equal,
        '[' => KeyCode::BracketLeft,
        ']' => KeyCode::BracketRight,
        '\\' => KeyCode::Backslash,
        ';' => KeyCode::Semicolon,
        '\'' => KeyCode::Quote,
        ',' => KeyCode::Comma,
        '.' => KeyCode::Period,
        '/' => KeyCode::Slash,
        '`' => KeyCode::Backquote,
        ' ' => KeyCode::Space,
        _ => KeyCode::Unidentified,
    }
}

/// The ASCII capital of a letter, anything else as it is.
fn capital(c: char) -> (r: char)
    ensures
        r == upper(c),
{
    if 'a' <= c && c <= 'z' {
        ((c as u8) - 32) as char
    } else {
        c
    }
}

/// The text of an event: with Option as Alt the key without it, shifted when it is a letter and
/// nothing otherwise; else the text the layout produced.
pub open spec fn text_of(
    key: Seq<char>,
    key_char: Option<Seq<char>>,
    shift: bool,
    as_alt: bool,
) -> Option<Seq<char>> {
    if as_alt {
        match lone(key) {
            Some(c) => if is_letter(c) {
                Some(
                    seq![
                        if shift {
                            upper(c)
                        } else {
                            c
                        },
                    ],
                )
            } else {
                None
            },
            None => None,
        }
    } else {
        match key_char {
            Some(t) => if t.len() > 0 {
                Some(t)
            } else {
                None
            },
            None => None,
        }
    }
}

/// The modifiers that went into the text: Shift, and Option unless it is Alt.
pub open spec fn consumed_of(m: Modifiers, has_text: bool, as_alt: bool) -> Mods {
    Mods { shift: has_text && m.shift, alt: has_text && !as_alt && m.alt, ctrl: false, logo: false }
}

/// Build the event for a key press.
///
/// `alt_is_alt` says the Option held is a modifier (the client's `option_as_alt` setting, resolved
/// for the side): the text is then the key without Option, so the host's encoder prefixes an
/// escape instead of typing the symbol. Otherwise the text is what the layout produced with Shift
/// and Option already applied; Ctrl and Cmd never produce text, so anything present had Shift (and
/// maybe Option) consumed.
pub fn key_event(seq: u64, keystroke: &Keystroke, repeat: bool, alt_is_alt: bool) -> (r: KeyEvent)
    ensures
        r.seq == seq,
        r.action == (if repeat {
            KeyAction::Repeat
        } else {
            KeyAction::Press
        }),
        r.code == code_of(keystroke.key@),
        r.mods == mods_of(keystroke.modifiers),
        r.unshifted == lone(keystroke.key@),
        r.option_as_alt == (alt_is_alt && keystroke.modifiers.alt),
        held(r.text) == text_of(
            keystroke.key@,
            held(keystroke.key_char),
            keystroke.modifiers.shift,
            r.option_as_alt,
        ),
        r.consumed_mods == consumed_of(keystroke.modifiers, r.text is Some, r.option_as_alt),
        !r.composing,
{
    let all = mods(keystroke.modifiers);
    let unshifted = lone_char(keystroke.key.as_str());
    let option_as_alt = alt_is_alt && all.alt;
    let text: Option<String> = if option_as_alt {
        match unshifted {
            Some(c) => if ('a' <= c && c <= 'z') || ('A' <= c && c <= 'Z') {
                let mut t = String::new();
                if keystroke.modifiers.shift {
                    t.push(capital(c));
                } else {
                    t.push(c);
                }
                Some(t)
            } else {
                None
            },
            None => None,
        }
    } else {
        match copy_of(&keystroke.key_char) {
            Some(t) => if chars_of(t.as_str()).len() > 0 {
                Some(t)
            } else {
                None
            },
            None => None,
        }
    };
    let has_text = text.is_some();
    let consumed_mods = Mods {
        shift: has_text && all.shift,
        alt: has_text && !option_as_alt && all.alt,
        ctrl: false,
        logo: false,
    };
    let r = KeyEvent {
        seq,
        action: if repeat {
            KeyAction::Repeat
        } else {
            KeyAction::Press
        },
        code: key_code(keystroke.key.as_str()),
        mods: all,
        consumed_mods,
        text,
        unshifted,
        composing: false,
        option_as_alt,
    };
    proof {
        let want = text_of(
            keystroke.key@,
            held(keystroke.key_char),
            keystroke.modifiers.shift,
            option_as_alt,
        );
        if want is Some {
            assert(held(r.text)->0 == want->0);
        }
    }
    r
}

/// No two names, and no two characters but for their case, stand for the same key.
pub proof fn law_keys_are_told_apart(a: Seq<char>, b: Seq<char>)
    requires
        code_of(a) == code_of(b),
        code_of(a) != KeyCode::Unidentified,
        code_of(a) != KeyCode::Space,
    ensures
        (a.len() == 1) == (b.len() == 1),
        a.len() == 1 ==> lower(a[0]) == lower(b[0]),
        a.len() != 1 ==> a == b,
{
    lemma_char_codes(a);
    lemma_char_codes(b);
}

/// The text of an event never holds what Ctrl or Cmd would add, and an event without text consumed
/// no modifier.
pub proof fn law_consumed_modifiers_went_into_text(m: Modifiers, has_text: bool, as_alt: bool)
    ensures
        !consumed_of(m, has_text, as_alt).ctrl,
        !consumed_of(m, has_text, as_alt).logo,
        !has_text ==> consumed_of(m, has_text, as_alt) == Mods::none(),
        consumed_of(m, has_text, as_alt).shift ==> mods_of(m).shift,
        consumed_of(m, has_text, as_alt).alt ==> mods_of(m).alt && !as_alt,
{
}

/// The key's character can be read off its code.
pub open spec fn code_char(code: KeyCode) -> Option<char> {
    match code {
        KeyCode::A => Some('a'),
        KeyCode::B => Some('b'),
        KeyCode::C => Some('c'),
        KeyCode::D => Some('d'),
        KeyCode::E => Some('e'),
        KeyCode::F => Some('f'),
        KeyCode::G => Some('g'),
        KeyCode::H => Some('h'),
        KeyCode::I => Some('i'),
        KeyCode::J => Some('j'),
        KeyCode::K => Some('k'),
        KeyCode::L => Some('l'),
        KeyCode::M => Some('m'),
        KeyCode::N => Some('n'),
        KeyCode::O => Some('o'),
        KeyCode::P => Some('p'),
        KeyCode::Q => Some('q'),
        KeyCode::R => Some('r'),
        KeyCode::S => Some('s'),
        KeyCode::T => Some('t'),
        KeyCode::U => Some('u'),
        KeyCode::V => Some('v'),
        KeyCode::W => Some('w'),
        KeyCode::X => Some('x'),
        KeyCode::Y => Some('y'),
        KeyCode::Z => Some('z'),
        KeyCode::Digit0 => Some('0'),
        KeyCode::Digit1 => Some('1'),
        KeyCode::Digit2 => Some('2'),
        KeyCode::Digit3 => Some('3'),
        KeyCode::Digit4 => Some('4'),
        KeyCode::Digit5 => Some('5'),
        KeyCode::Digit6 => Some('6'),
        KeyCode::Digit7 => Some('7'),
        KeyCode::Digit8 => Some('8'),
        KeyCode::Digit9 => Some('9'),
        KeyCode::Minus => Some('-'),
        KeyCode::Equal => Some('='),
        KeyCode::BracketLeft => Some('['),
        KeyCode::BracketRight => Some(']'),
        KeyCode::Backslash => Some('\\'),
        KeyCode::Semicolon => Some(';'),
        KeyCode::Quote => Some('\''),
        KeyCode::Comma => Some(','),
        KeyCode::Period => Some('.'),
        KeyCode::Slash => Some('/'),
        KeyCode::Backquote => Some('`'),
        KeyCode::Space => Some(' '),
        _ => None,
    }
}

proof fn lemma_char_codes(a: Seq<char>)
    requires
        code_of(a) != KeyCode::Unidentified,
        code_of(a) != KeyCode::Space,
    ensures
        code_char(code_of(a)) == (match lone(a) {
            Some(c) => Some(lower(c)),
            None => None,
        }),
{
}

} // verus!
