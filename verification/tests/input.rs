use kova::input::{first_char, handle_key_event, paste_bytes, write_text, LogicalKey, ModifierState, NamedKey};
use kova::keybindings::{parse_key_combo, KeyMap, Keybindings, TerminalAction};

fn terminal_keys() -> Keybindings {
    Keybindings {
        window_map: KeyMap::new(),
        terminal_map: KeyMap::from_bindings(vec![
            (parse_key_combo("cmd+backspace"), TerminalAction::KillLine),
            (parse_key_combo("cmd+left"), TerminalAction::Home),
            (parse_key_combo("cmd+right"), TerminalAction::End),
            (parse_key_combo("alt+left"), TerminalAction::WordBack),
            (parse_key_combo("alt+right"), TerminalAction::WordForward),
            (parse_key_combo("shift+enter"), TerminalAction::ShiftEnter),
        ]),
    }
}

fn mods(super_key: bool, control: bool, alt: bool, shift: bool) -> ModifierState {
    ModifierState { super_key, control, alt, shift }
}

const NONE: ModifierState = ModifierState { super_key: false, control: false, alt: false, shift: false };

fn ch(s: &str) -> LogicalKey {
    LogicalKey::Character(s.to_string())
}

fn named(n: NamedKey) -> LogicalKey {
    LogicalKey::Named(n)
}

#[test]
fn write_text_sends_utf8() {
    assert_eq!(write_text(""), None);
    assert_eq!(write_text("ls\n"), Some(b"ls\n".to_vec()));
    assert_eq!(write_text("é"), Some(vec![0xc3, 0xa9]));
}

#[test]
fn first_char_of_text() {
    assert_eq!(first_char(&"abc".to_string()), 'a');
    assert_eq!(first_char(&String::new()), '\0');
}

#[test]
fn terminal_shortcuts_come_first() {
    let kb = terminal_keys();
    assert_eq!(handle_key_event(&named(NamedKey::Backspace), &mods(true, false, false, false), false, &kb), b"\x15");
    assert_eq!(handle_key_event(&named(NamedKey::ArrowLeft), &mods(true, false, false, false), false, &kb), b"\x1b[H");
    assert_eq!(handle_key_event(&named(NamedKey::ArrowRight), &mods(true, false, false, false), false, &kb), b"\x1b[F");
    assert_eq!(handle_key_event(&named(NamedKey::ArrowLeft), &mods(false, false, true, false), false, &kb), b"\x1bb");
    assert_eq!(handle_key_event(&named(NamedKey::ArrowRight), &mods(false, false, true, false), true, &kb), b"\x1bf");
    assert_eq!(handle_key_event(&named(NamedKey::Enter), &mods(false, false, false, true), false, &kb), b"\x1b[13;2u");
}

#[test]
fn unbound_super_keys_are_ignored() {
    let kb = terminal_keys();
    assert!(handle_key_event(&ch("c"), &mods(true, false, false, false), false, &kb).is_empty());
    assert!(handle_key_event(&named(NamedKey::ArrowUp), &mods(true, false, false, false), false, &kb).is_empty());
}

#[test]
fn control_characters() {
    let kb = terminal_keys();
    let ctrl = mods(false, true, false, false);
    assert_eq!(handle_key_event(&ch("c"), &ctrl, false, &kb), vec![3]);
    assert_eq!(handle_key_event(&ch("A"), &ctrl, false, &kb), vec![1]);
    assert_eq!(handle_key_event(&ch("z"), &ctrl, false, &kb), vec![26]);
    assert_eq!(handle_key_event(&ch("["), &ctrl, false, &kb), vec![0x1b]);
    assert_eq!(handle_key_event(&ch("\\"), &ctrl, false, &kb), vec![0x1c]);
    assert_eq!(handle_key_event(&ch("]"), &ctrl, false, &kb), vec![0x1d]);
    assert_eq!(handle_key_event(&ch("^"), &ctrl, false, &kb), vec![0x1e]);
    assert_eq!(handle_key_event(&ch("_"), &ctrl, false, &kb), vec![0x1f]);
    // Other characters fall through to plain text.
    assert_eq!(handle_key_event(&ch("1"), &ctrl, false, &kb), b"1");
    // Ctrl with a special key sends the key's sequence.
    assert_eq!(handle_key_event(&named(NamedKey::Tab), &ctrl, false, &kb), b"\t");
}

#[test]
fn special_keys() {
    let kb = terminal_keys();
    let cases: Vec<(NamedKey, &[u8], &[u8])> = vec![
        (NamedKey::ArrowUp, b"\x1b[A", b"\x1bOA"),
        (NamedKey::ArrowDown, b"\x1b[B", b"\x1bOB"),
        (NamedKey::ArrowLeft, b"\x1b[D", b"\x1bOD"),
        (NamedKey::ArrowRight, b"\x1b[C", b"\x1bOC"),
        (NamedKey::Insert, b"\x1b[2~", b"\x1b[2~"),
        (NamedKey::Delete, b"\x1b[3~", b"\x1b[3~"),
        (NamedKey::Home, b"\x1b[H", b"\x1b[H"),
        (NamedKey::End, b"\x1b[F", b"\x1b[F"),
        (NamedKey::PageUp, b"\x1b[5~", b"\x1b[5~"),
        (NamedKey::PageDown, b"\x1b[6~", b"\x1b[6~"),
        (NamedKey::Backspace, b"\x7f", b"\x7f"),
        (NamedKey::Enter, b"\r", b"\r"),
        (NamedKey::Tab, b"\t", b"\t"),
        (NamedKey::Escape, b"\x1b", b"\x1b"),
        (NamedKey::F1, b"\x1bOP", b"\x1bOP"),
        (NamedKey::F2, b"\x1bOQ", b"\x1bOQ"),
        (NamedKey::F3, b"\x1bOR", b"\x1bOR"),
        (NamedKey::F4, b"\x1bOS", b"\x1bOS"),
    ];
    for (k, normal, app) in cases {
        assert_eq!(handle_key_event(&named(k), &NONE, false, &kb), normal);
        assert_eq!(handle_key_event(&named(k), &NONE, true, &kb), app);
    }
    assert_eq!(handle_key_event(&named(NamedKey::Tab), &mods(false, false, false, true), false, &kb), b"\x1b[Z");
    assert!(handle_key_event(&named(NamedKey::F11), &NONE, false, &kb).is_empty());
    assert!(handle_key_event(&named(NamedKey::Other), &NONE, false, &kb).is_empty());
    assert!(handle_key_event(&LogicalKey::Unidentified, &NONE, false, &kb).is_empty());
}

#[test]
fn alt_prefixes_escape_and_text_passes_through() {
    let kb = terminal_keys();
    assert_eq!(handle_key_event(&ch("x"), &mods(false, false, true, false), false, &kb), b"\x1bx");
    assert_eq!(handle_key_event(&ch("é"), &mods(false, false, true, false), false, &kb), vec![0x1b, 0xc3, 0xa9]);
    assert_eq!(handle_key_event(&ch("x"), &NONE, false, &kb), b"x");
    assert_eq!(handle_key_event(&ch("X"), &mods(false, false, false, true), false, &kb), b"X");
    assert_eq!(handle_key_event(&ch("€"), &NONE, false, &kb), "€".as_bytes());
}

#[test]
fn pasted_text_is_bracketed_when_asked() {
    assert_eq!(paste_bytes("ls -l", false), b"ls -l".to_vec());
    assert_eq!(paste_bytes("ls -l", true), b"\x1b[200~ls -l\x1b[201~".to_vec());
    assert_eq!(paste_bytes("é", true), vec![0x1b, b'[', b'2', b'0', b'0', b'~', 0xc3, 0xa9, 0x1b, b'[', b'2', b'0', b'1', b'~']);
    assert_eq!(paste_bytes("", true), b"\x1b[200~\x1b[201~".to_vec());
    assert_eq!(paste_bytes("", false), Vec::<u8>::new());
}
