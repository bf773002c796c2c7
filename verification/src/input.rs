//! How key presses become the bytes that are written to a terminal:
//! configured terminal shortcuts, control characters, escape sequences for
//! the special keys, the Alt prefix and plain text.
use vstd::prelude::*;
use vstd::string::StrSliceExecFns;
use vstd::utf8::encode_utf8;

use crate::keybindings::{key_combo_of, KeyCombo, Keybindings, TerminalAction};
use crate::text::ascii_lower;

verus! {

/// The keys without text that the terminal distinguishes.
#[derive(Clone, Copy, Debug, PartialEq, Eq, Structural)]
pub enum NamedKey {
    ArrowUp,
    ArrowDown,
    ArrowLeft,
    ArrowRight,
    Insert,
    Delete,
    Home,
    End,
    PageUp,
    PageDown,
    Backspace,
    Enter,
    Tab,
    Escape,
    F1,
    F2,
    F3,
    F4,
    F11,
    Other,
}

/// The logical key of a key press.
#[derive(Clone, Debug)]
pub enum LogicalKey {
    Named(NamedKey),
    /// The text that the key produces.
    Character(String),
    Unidentified,
}

/// The modifier keys held during a key press.
#[derive(Clone, Copy, Debug, PartialEq, Eq, Structural)]
pub struct ModifierState {
    pub super_key: bool,
    pub control: bool,
    pub alt: bool,
    pub shift: bool,
}

/// The first character of a text, or `'\0'` for an empty text.
pub open spec fn first_char_spec(s: Seq<char>) -> char {
    if s.len() > 0 {
        s[0]
    } else {
        '\0'
    }
}

pub fn first_char(s: &String) -> (c: char)
    ensures
        c == first_char_spec(s@),
{
    let t = s.as_str();
    if t.unicode_len() > 0 {
        t.get_char(0)
    } else {
        '\0'
    }
}

/// The bytes a terminal shortcut sends.
pub open spec fn terminal_action_bytes(a: TerminalAction) -> Seq<u8> {
    match a {
        TerminalAction::KillLine => seq![0x15u8],
        TerminalAction::Home => seq![0x1bu8, 0x5b, 0x48],
        TerminalAction::End => seq![0x1bu8, 0x5b, 0x46],
        TerminalAction::WordBack => seq![0x1bu8, 0x62],
        TerminalAction::WordForward => seq![0x1bu8, 0x66],
        TerminalAction::ShiftEnter => seq![0x1bu8, 0x5b, 0x31, 0x33, 0x3b, 0x32, 0x75],
    }
}

/// The control byte that Ctrl+`c` sends: `^A`..`^Z` for letters, and
/// `ESC`, `FS`, `GS`, `RS`, `US` for `[`, `\`, `]`, `^`, `_`.
pub open spec fn ctrl_byte(c: char) -> Option<u8> {
    if ('a' <= c && c <= 'z') || ('A' <= c && c <= 'Z') {
        Some(((ascii_lower(c) as u32) - 0x60) as u8)
    } else if c == '[' || c == '\\' || c == ']' || c == '^' || c == '_' {
        Some(((c as u32) - 0x40) as u8)
    } else {
        None
    }
}

/// The escape sequence of a special key; `app_cursor` selects the
/// application cursor-key mode (DECCKM).
pub open spec fn named_key_bytes(n: NamedKey, app_cursor: bool, shift: bool) -> Option<Seq<u8>> {
    match n {
        NamedKey::ArrowUp => Some(
            if app_cursor {
                seq![0x1bu8, 0x4f, 0x41]
            } else {
                seq![0x1bu8, 0x5b, 0x41]
            },
        ),
        NamedKey::ArrowDown => Some(
            if app_cursor {
                seq![0x1bu8, 0x4f, 0x42]
            } else {
                seq![0x1bu8, 0x5b, 0x42]
            },
        ),
        NamedKey::ArrowLeft => Some(
            if app_cursor {
                seq![0x1bu8, 0x4f, 0x44]
            } else {
                seq![0x1bu8, 0x5b, 0x44]
            },
        ),
        NamedKey::ArrowRight => Some(
            if app_cursor {
                seq![0x1bu8, 0x4f, 0x43]
            } else {
                seq![0x1bu8, 0x5b, 0x43]
            },
        ),
        NamedKey::Insert => Some(seq![0x1bu8, 0x5b, 0x32, 0x7e]),
        NamedKey::Delete => Some(seq![0x1bu8, 0x5b, 0x33, 0x7e]),
        NamedKey::Home => Some(seq![0x1bu8, 0x5b, 0x48]),
        NamedKey::End => Some(seq![0x1bu8, 0x5b, 0x46]),
        NamedKey::PageUp => Some(seq![0x1bu8, 0x5b, 0x35, 0x7e]),
        NamedKey::PageDown => Some(seq![0x1bu8, 0x5b, 0x36, 0x7e]),
        NamedKey::Backspace => Some(seq![0x7fu8]),
        NamedKey::Enter => Some(seq![0x0du8]),
        NamedKey::Tab => Some(
            if shift {
                seq![0x1bu8, 0x5b, 0x5a]
            } else {
                seq![0x09u8]
            },
        ),
        NamedKey::Escape => Some(seq![0x1bu8]),
        NamedKey::F1 => Some(seq![0x1bu8, 0x4f, 0x50]),
        NamedKey::F2 => Some(seq![0x1bu8, 0x4f, 0x51]),
        NamedKey::F3 => Some(seq![0x1bu8, 0x4f, 0x52]),
        NamedKey::F4 => Some(seq![0x1bu8, 0x4f, 0x53]),
        _ => None,
    }
}

/// What a key press writes to the terminal, in order of precedence: a
/// configured terminal shortcut; nothing while Super is held; the control
/// byte of Ctrl+letter; the escape sequence of a special key; ESC followed by
/// the text under Alt; the text itself.
pub open spec fn key_event_bytes(
    key: LogicalKey,
    m: ModifierState,
    app_cursor: bool,
    terminal_map: Map<KeyCombo, TerminalAction>,
) -> Seq<u8> {
    let combo = key_combo_of(key, m);
    if terminal_map.contains_key(combo) {
        terminal_action_bytes(terminal_map[combo])
    } else if m.super_key {
        Seq::empty()
    } else if m.control && key is Character && ctrl_byte(first_char_spec(key->Character_0@))
        is Some {
        seq![ctrl_byte(first_char_spec(key->Character_0@))->0]
    } else if key is Named && named_key_bytes(key->Named_0, app_cursor, m.shift) is Some {
        named_key_bytes(key->Named_0, app_cursor, m.shift)->0
    } else if key is Character {
        if m.alt {
            seq![0x1bu8] + encode_utf8(key->Character_0@)
        } else {
            encode_utf8(key->Character_0@)
        }
    } else {
        Seq::empty()
    }
}

/// Ctrl and Alt do not change what a special key sends: with no terminal
/// shortcut for the press and Super not held, two presses of the same named
/// key that differ only in Ctrl and Alt write the same bytes.
pub proof fn lemma_special_key_ignores_ctrl_alt(
    n: NamedKey,
    m1: ModifierState,
    m2: ModifierState,
    app_cursor: bool,
    terminal_map: Map<KeyCombo, TerminalAction>,
)
    requires
        m1.shift == m2.shift,
        !m1.super_key,
        !m2.super_key,
        !terminal_map.contains_key(key_combo_of(LogicalKey::Named(n), m1)),
        !terminal_map.contains_key(key_combo_of(LogicalKey::Named(n), m2)),
    ensures
        key_event_bytes(LogicalKey::Named(n), m1, app_cursor, terminal_map) == key_event_bytes(
            LogicalKey::Named(n),
            m2,
            app_cursor,
            terminal_map,
        ),
{
}

/// With no terminal shortcut for the press and Super not held, an arrow key
/// sends `ESC [` (or `ESC O` in application cursor mode) and its letter
/// `A`, `B`, `C` or `D` for up, down, right and left, whatever Ctrl, Alt and
/// Shift are.
pub proof fn lemma_arrow_keys_send_cursor_sequences(
    n: NamedKey,
    m: ModifierState,
    app_cursor: bool,
    terminal_map: Map<KeyCombo, TerminalAction>,
)
    requires
        n == NamedKey::ArrowUp || n == NamedKey::ArrowDown || n == NamedKey::ArrowLeft || n
            == NamedKey::ArrowRight,
        !m.super_key,
        !terminal_map.contains_key(key_combo_of(LogicalKey::Named(n), m)),
    ensures
        ({
            let bytes = key_event_bytes(LogicalKey::Named(n), m, app_cursor, terminal_map);
            let letter: u8 = if n == NamedKey::ArrowUp {
                0x41
            } else if n == NamedKey::ArrowDown {
                0x42
            } else if n == NamedKey::ArrowRight {
                0x43
            } else {
                0x44
            };
            bytes == seq![0x1bu8, if app_cursor { 0x4fu8 } else { 0x5bu8 }, letter]
        }),
{
}

fn terminal_action_to_bytes(a: TerminalAction) -> (b: Vec<u8>)
    ensures
        b@ == terminal_action_bytes(a),
{
    let v = match a {
        TerminalAction::KillLine => vec![0x15u8],
        TerminalAction::Home => vec![0x1bu8, 0x5b, 0x48],
        TerminalAction::End => vec![0x1bu8, 0x5b, 0x46],
        TerminalAction::WordBack => vec![0x1bu8, 0x62],
        TerminalAction::WordForward => vec![0x1bu8, 0x66],
        TerminalAction::ShiftEnter => vec![0x1bu8, 0x5b, 0x31, 0x33, 0x3b, 0x32, 0x75],
    };
    proof {
        assert(v@ =~= terminal_action_bytes(a));
    }
    v
}

fn ctrl_byte_of(c: char) -> (r: Option<u8>)
    ensures
        r == ctrl_byte(c),
{
    if ('a' <= c && c <= 'z') || ('A' <= c && c <= 'Z') {
        let l = crate::text::ascii_lower_char(c);
        Some(((l as u32) - 0x60) as u8)
    } else if c == '[' || c == '\\' || c == ']' || c == '^' || c == '_' {
        Some(((c as u32) - 0x40) as u8)
    } else {
        None
    }
}

fn named_key_to_bytes(n: NamedKey, app_cursor: bool, shift: bool) -> (r: Option<Vec<u8>>)
    ensures
        match r {
            Some(v) => named_key_bytes(n, app_cursor, shift) == Some(v@),
            None => named_key_bytes(n, app_cursor, shift) is None,
        },
{
    let r = match n {
        NamedKey::ArrowUp => Some(
            if app_cursor {
                vec![0x1bu8, 0x4f, 0x41]
            } else {
                vec![0x1bu8, 0x5b, 0x41]
            },
        ),
        NamedKey::ArrowDown => Some(
            if app_cursor {
                vec![0x1bu8, 0x4f, 0x42]
            } else {
                vec![0x1bu8, 0x5b, 0x42]
            },
        ),
        NamedKey::ArrowLeft => Some(
            if app_cursor {
                vec![0x1bu8, 0x4f, 0x44]
            } else {
                vec![0x1bu8, 0x5b, 0x44]
            },
        ),
        NamedKey::ArrowRight => Some(
            if app_cursor {
                vec![0x1bu8, 0x4f, 0x43]
            } else {
                vec![0x1bu8, 0x5b, 0x43]
            },
        ),
        NamedKey::Insert => Some(vec![0x1bu8, 0x5b, 0x32, 0x7e]),
        NamedKey::Delete => Some(vec![0x1bu8, 0x5b, 0x33, 0x7e]),
        NamedKey::Home => Some(vec![0x1bu8, 0x5b, 0x48]),
        NamedKey::End => Some(vec![0x1bu8, 0x5b, 0x46]),
        NamedKey::PageUp => Some(vec![0x1bu8, 0x5b, 0x35, 0x7e]),
        NamedKey::PageDown => Some(vec![0x1bu8, 0x5b, 0x36, 0x7e]),
        NamedKey::Backspace => Some(vec![0x7fu8]),
        NamedKey::Enter => Some(vec![0x0du8]),
        NamedKey::Tab => Some(
            if shift {
                vec![0x1bu8, 0x5b, 0x5a]
            } else {
                vec![0x09u8]
            },
        ),
        NamedKey::Escape => Some(vec![0x1bu8]),
        NamedKey::F1 => Some(vec![0x1bu8, 0x4f, 0x50]),
        NamedKey::F2 => Some(vec![0x1bu8, 0x4f, 0x51]),
        NamedKey::F3 => Some(vec![0x1bu8, 0x4f, 0x52]),
        NamedKey::F4 => Some(vec![0x1bu8, 0x4f, 0x53]),
        _ => None,
    };
    proof {
        if r is Some {
            assert(named_key_bytes(n, app_cursor, shift)->0 =~= r->0@);
        }
    }
    r
}

/// The UTF-8 bytes of a text, or `None` for the empty text (nothing is
/// written then).
pub fn write_text(text: &str) -> (bytes: Option<Vec<u8>>)
    ensures
        match bytes {
            None => text@.len() == 0,
            Some(b) => text@.len() > 0 && b@ == encode_utf8(text@),
        },
{
    if !text.is_empty() {
        Some(text.as_bytes_vec())
    } else {
        None
    }
}

/// The bytes that pasting `text` writes to the terminal: its UTF-8 bytes,
/// between `ESC [200~` and `ESC [201~` when the terminal asked for bracketed
/// paste.
pub open spec fn paste_bytes_spec(text: Seq<char>, bracketed: bool) -> Seq<u8> {
    if bracketed {
        seq![0x1bu8, 0x5b, 0x32, 0x30, 0x30, 0x7e] + encode_utf8(text) + seq![
            0x1bu8,
            0x5b,
            0x32,
            0x30,
            0x31,
            0x7e,
        ]
    } else {
        encode_utf8(text)
    }
}

/// The bytes that pasting `text` writes to the terminal (see
/// [`paste_bytes_spec`]).
pub fn paste_bytes(text: &str, bracketed: bool) -> (bytes: Vec<u8>)
    ensures
        bytes@ == paste_bytes_spec(text@, bracketed),
{
    let body = text.as_bytes_vec();
    if !bracketed {
        return body;
    }
    let mut out: Vec<u8> = vec![0x1bu8, 0x5b, 0x32, 0x30, 0x30, 0x7e];
    let mut i: usize = 0;
    while i < body.len()
        invariant
            i <= body.len(),
            out@ == seq![0x1bu8, 0x5b, 0x32, 0x30, 0x30, 0x7e] + body@.take(i as int),
        decreases body.len() - i,
    {
        out.push(body[i]);
        i = i + 1;
        proof {
            assert(body@.take(i as int) =~= body@.take(i - 1).push(body@[i - 1]));
            assert(out@ =~= seq![0x1bu8, 0x5b, 0x32, 0x30, 0x30, 0x7e] + body@.take(i as int));
        }
    }
    out.push(0x1bu8);
    out.push(0x5b);
    out.push(0x32);
    out.push(0x30);
    out.push(0x31);
    out.push(0x7e);
    proof {
        assert(body@.take(i as int) =~= body@);
        assert(out@ =~= paste_bytes_spec(text@, bracketed));
    }
    out
}

/// The bytes that a key press writes to the terminal (empty: nothing).
#[verifier::spinoff_prover]
pub fn handle_key_event(
    key: &LogicalKey,
    modifiers: &ModifierState,
    cursor_keys_app: bool,
    keybindings: &Keybindings,
) -> (bytes: Vec<u8>)
    ensures
        bytes@ == key_event_bytes(*key, *modifiers, cursor_keys_app, keybindings.terminal_map@),
{
    let combo = KeyCombo::from_winit(key, modifiers);

    // Configurable terminal keybindings come first.
    if let Some(action) = keybindings.terminal_map.get(&combo) {
        return terminal_action_to_bytes(*action);
    }
    // Super key with no matching terminal binding: ignored.
    if modifiers.super_key {
        return Vec::new();
    }
    // Ctrl + letter: control byte.
    if modifiers.control {
        if let LogicalKey::Character(s) = key {
            let c = first_char(s);
            if let Some(b) = ctrl_byte_of(c) {
                let v = vec![b];
                proof {
                    assert(v@ =~= seq![b]);
                }
                return v;
            }
        }
    }
    // Special keys: arrows, function keys, editing keys.
    if let LogicalKey::Named(named) = key {
        if let Some(v) = named_key_to_bytes(*named, cursor_keys_app, modifiers.shift) {
            return v;
        }
    }
    if let LogicalKey::Character(s) = key {
        let text = s.as_str().as_bytes_vec();
        if modifiers.alt {
            // Alt + character: ESC prefix.
            let mut bytes = vec![0x1bu8];
            let mut rest = text;
            bytes.append(&mut rest);
            proof {
                assert(bytes@ =~= seq![0x1bu8] + encode_utf8(s@));
            }
            return bytes;
        }
        return text;
    }
    Vec::new()
}

} // verus!
