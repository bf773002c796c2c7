use kova::input::{LogicalKey, ModifierState, NamedKey};
use kova::keybindings::{
    parse_key_combo, Action, KeyCombo, KeyMap, KeyType, Keybindings, KeysConfig, NavDirection,
    SplitAxis, TerminalAction, TerminalKeysConfig,
};

fn combo(cmd: bool, ctrl: bool, option: bool, shift: bool, key: KeyType) -> KeyCombo {
    KeyCombo { cmd, ctrl, option, shift, key }
}

fn s(x: &str) -> String {
    x.to_string()
}

pub fn readme_keys() -> KeysConfig {
    KeysConfig {
        new_tab: s("cmd+t"),
        close_pane_or_tab: s("cmd+w"),
        vsplit: s("cmd+d"),
        hsplit: s("cmd+shift+d"),
        vsplit_root: s("cmd+e"),
        hsplit_root: s("cmd+shift+e"),
        new_window: s("cmd+n"),
        close_window: s("cmd+shift+w"),
        kill_window: s("cmd+shift+q"),
        copy: s("cmd+c"),
        paste: s("cmd+v"),
        toggle_filter: s("cmd+f"),
        clear_scrollback: s("cmd+k"),
        prev_tab: s("cmd+shift+["),
        next_tab: s("cmd+shift+]"),
        rename_tab: s("cmd+shift+r"),
        rename_pane: s("cmd+shift+p"),
        detach_tab: s("cmd+shift+t"),
        merge_window: s("cmd+shift+m"),
        switch_tab_1: s("cmd+1"),
        switch_tab_2: s("cmd+2"),
        switch_tab_3: s("cmd+3"),
        switch_tab_4: s("cmd+4"),
        switch_tab_5: s("cmd+5"),
        switch_tab_6: s("cmd+6"),
        switch_tab_7: s("cmd+7"),
        switch_tab_8: s("cmd+8"),
        switch_tab_9: s("cmd+9"),
        navigate_up: s("cmd+alt+up"),
        navigate_down: s("cmd+alt+down"),
        navigate_left: s("cmd+alt+left"),
        navigate_right: s("cmd+alt+right"),
        swap_up: s("cmd+shift+up"),
        swap_down: s("cmd+shift+down"),
        swap_left: s("cmd+shift+left"),
        swap_right: s("cmd+shift+right"),
        resize_left: s("cmd+ctrl+left"),
        resize_right: s("cmd+ctrl+right"),
        resize_up: s("cmd+ctrl+up"),
        resize_down: s("cmd+ctrl+down"),
        terminal: TerminalKeysConfig {
            kill_line: s("cmd+backspace"),
            home: s("cmd+left"),
            end: s("cmd+right"),
            word_back: s("alt+left"),
            word_forward: s("alt+right"),
            shift_enter: s("shift+enter"),
        },
    }
}

#[test]
fn parses_modifiers_and_key() {
    assert_eq!(parse_key_combo("cmd+shift+d"), combo(true, false, false, true, KeyType::Char('d')));
    assert_eq!(parse_key_combo("ctrl+alt+up"), combo(false, true, true, false, KeyType::Up));
    assert_eq!(parse_key_combo("command+opt+Return"), combo(true, false, true, false, KeyType::Enter));
    assert_eq!(parse_key_combo("control+option+delete"), combo(false, true, true, false, KeyType::Backspace));
}

#[test]
fn parse_ignores_case_and_surrounding_whitespace() {
    assert_eq!(parse_key_combo(" CMD + Shift + D "), parse_key_combo("cmd+shift+d"));
    assert_eq!(parse_key_combo("Shift+Cmd+d"), parse_key_combo("cmd+shift+d"));
}

#[test]
fn parse_single_keys() {
    assert_eq!(parse_key_combo("["), combo(false, false, false, false, KeyType::Char('[')));
    assert_eq!(parse_key_combo("cmd+]"), combo(true, false, false, false, KeyType::Char(']')));
    assert_eq!(parse_key_combo("left"), combo(false, false, false, false, KeyType::Left));
    assert_eq!(parse_key_combo("Right"), combo(false, false, false, false, KeyType::Right));
    assert_eq!(parse_key_combo("down"), combo(false, false, false, false, KeyType::Down));
    assert_eq!(parse_key_combo("backspace"), combo(false, false, false, false, KeyType::Backspace));
}

#[test]
fn parse_unknown_key_and_modifier() {
    // An unknown key name gives the null key; unknown modifiers are ignored.
    assert_eq!(parse_key_combo("cmd+pageup"), combo(true, false, false, false, KeyType::Char('\0')));
    assert_eq!(parse_key_combo("hyper+x"), combo(false, false, false, false, KeyType::Char('x')));
    // A non-ASCII single character is not a key.
    assert_eq!(parse_key_combo("cmd+é"), combo(true, false, false, false, KeyType::Char('\0')));
    // The empty string and a trailing '+' give the null key.
    assert_eq!(parse_key_combo(""), combo(false, false, false, false, KeyType::Char('\0')));
    assert_eq!(parse_key_combo("cmd+"), combo(true, false, false, false, KeyType::Char('\0')));
}

#[test]
fn keymap_insert_then_get() {
    let mut m: KeyMap<u32> = KeyMap::new();
    let a = combo(true, false, false, false, KeyType::Char('a'));
    let b = combo(false, true, false, false, KeyType::Char('a'));
    assert_eq!(m.get(&a), None);
    m.insert(a, 1);
    m.insert(b, 2);
    assert_eq!(m.get(&a), Some(&1));
    m.insert(a, 3);
    assert_eq!(m.get(&a), Some(&3));
    assert_eq!(m.get(&b), Some(&2));
}

#[test]
fn from_config_binds_readme_shortcuts() {
    let kb = Keybindings::from_config(&readme_keys());
    assert_eq!(kb.window_map.get(&parse_key_combo("cmd+t")), Some(&Action::NewTab));
    assert_eq!(kb.window_map.get(&parse_key_combo("cmd+shift+d")), Some(&Action::HSplit));
    assert_eq!(kb.window_map.get(&parse_key_combo("cmd+3")), Some(&Action::SwitchTab(2)));
    assert_eq!(
        kb.window_map.get(&parse_key_combo("cmd+alt+left")),
        Some(&Action::Navigate(NavDirection::Left))
    );
    assert_eq!(
        kb.window_map.get(&parse_key_combo("cmd+ctrl+up")),
        Some(&Action::Resize(SplitAxis::Vertical, -5))
    );
    assert_eq!(kb.window_map.get(&parse_key_combo("cmd+z")), None);
    assert_eq!(kb.terminal_map.get(&parse_key_combo("shift+enter")), Some(&TerminalAction::ShiftEnter));
    assert_eq!(kb.terminal_map.get(&parse_key_combo("alt+right")), Some(&TerminalAction::WordForward));
}

#[test]
fn later_binding_of_same_combo_wins() {
    let mut keys = readme_keys();
    keys.resize_down = s("cmd+t");
    let kb = Keybindings::from_config(&keys);
    assert_eq!(
        kb.window_map.get(&parse_key_combo("cmd+t")),
        Some(&Action::Resize(SplitAxis::Vertical, 5))
    );
}

#[test]
fn combo_of_key_press() {
    let mods = ModifierState { super_key: true, control: false, alt: false, shift: true };
    assert_eq!(
        KeyCombo::from_winit(&LogicalKey::Character(s("D")), &mods),
        combo(true, false, false, true, KeyType::Char('d'))
    );
    assert_eq!(
        KeyCombo::from_winit(&LogicalKey::Named(NamedKey::ArrowLeft), &mods),
        combo(true, false, false, true, KeyType::Left)
    );
    assert_eq!(
        KeyCombo::from_winit(&LogicalKey::Named(NamedKey::Escape), &mods),
        combo(true, false, false, true, KeyType::Char('\0'))
    );
    assert_eq!(
        KeyCombo::from_winit(&LogicalKey::Character(s("")), &mods),
        combo(true, false, false, true, KeyType::Char('\0'))
    );
}

#[test]
fn written_shortcut_fires_on_its_key_press() {
    let keys: Vec<(LogicalKey, &str)> = vec![
        (LogicalKey::Named(NamedKey::ArrowUp), "up"),
        (LogicalKey::Named(NamedKey::ArrowLeft), "left"),
        (LogicalKey::Named(NamedKey::Backspace), "backspace"),
        (LogicalKey::Named(NamedKey::Enter), "enter"),
        (LogicalKey::Character(s("d")), "d"),
        (LogicalKey::Character(s("D")), "D"),
        (LogicalKey::Character(s("[")), "["),
        (LogicalKey::Character(s("3")), "3"),
    ];
    for bits in 0..16u8 {
        let mods = ModifierState {
            super_key: bits & 1 != 0,
            control: bits & 2 != 0,
            alt: bits & 4 != 0,
            shift: bits & 8 != 0,
        };
        let mut prefix = String::new();
        if mods.super_key {
            prefix.push_str("cmd+");
        }
        if mods.control {
            prefix.push_str("ctrl+");
        }
        if mods.alt {
            prefix.push_str("alt+");
        }
        if mods.shift {
            prefix.push_str("shift+");
        }
        for (key, word) in &keys {
            let text = format!("{prefix}{word}");
            assert_eq!(parse_key_combo(&text), KeyCombo::from_winit(key, &mods), "{text}");
        }
    }
}

#[test]
fn function_keys_have_their_own_combos() {
    let none = ModifierState { super_key: false, control: false, alt: false, shift: false };
    let f1 = KeyCombo::from_winit(&LogicalKey::Named(NamedKey::F1), &none);
    let f2 = KeyCombo::from_winit(&LogicalKey::Named(NamedKey::F2), &none);
    let f11 = KeyCombo::from_winit(&LogicalKey::Named(NamedKey::F11), &none);
    let tab = KeyCombo::from_winit(&LogicalKey::Named(NamedKey::Tab), &none);
    assert_eq!(f1, combo(false, false, false, false, KeyType::F1));
    assert_eq!(f2, combo(false, false, false, false, KeyType::F2));
    assert_eq!(f11, combo(false, false, false, false, KeyType::F11));
    assert_ne!(f1, f2);
    assert_ne!(f1, f11);
    assert_ne!(f2, f11);
    assert_ne!(f1, tab);
    assert_ne!(f2, tab);
    assert_ne!(f11, tab);
    assert_eq!(parse_key_combo("f2"), f2);
    assert_eq!(parse_key_combo("F11"), f11);
    assert_eq!(parse_key_combo("cmd+f1"), combo(true, false, false, false, KeyType::F1));
}

#[test]
fn fixed_window_shortcuts() {
    let kb = Keybindings::from_config(&readme_keys());
    assert_eq!(kb.window_map.get(&parse_key_combo("f1")), Some(&Action::ToggleHelp));
    assert_eq!(kb.window_map.get(&parse_key_combo("f2")), Some(&Action::SaveSession));
    assert_eq!(kb.window_map.get(&parse_key_combo("f11")), Some(&Action::ToggleFullscreen));
    assert_eq!(kb.window_map.get(&parse_key_combo("cmd+0")), Some(&Action::ShowAllTerminals));
    assert_eq!(
        kb.window_map.get(&parse_key_combo("cmd+alt+shift+right")),
        Some(&Action::MoveTabToNextProject)
    );
    assert_eq!(
        kb.window_map.get(&parse_key_combo("cmd+alt+shift+left")),
        Some(&Action::MoveTabToPrevProject)
    );
    // Ctrl+Shift+C/V copy and paste besides the configured shortcuts.
    assert_eq!(kb.window_map.get(&parse_key_combo("ctrl+shift+c")), Some(&Action::Copy));
    assert_eq!(kb.window_map.get(&parse_key_combo("ctrl+shift+v")), Some(&Action::Paste));
    assert_eq!(kb.window_map.get(&parse_key_combo("cmd+c")), Some(&Action::Copy));
    assert_eq!(kb.window_map.get(&parse_key_combo("cmd+v")), Some(&Action::Paste));
}

#[test]
fn configured_shortcut_overrides_a_fixed_one() {
    let mut keys = readme_keys();
    keys.new_tab = s("f2");
    let kb = Keybindings::from_config(&keys);
    assert_eq!(kb.window_map.get(&parse_key_combo("f2")), Some(&Action::NewTab));
}

#[test]
fn modifier_names_in_any_order() {
    let mods = ModifierState { super_key: true, control: true, alt: false, shift: true };
    let expected = KeyCombo::from_winit(&LogicalKey::Character(s("d")), &mods);
    for text in ["cmd+ctrl+shift+d", "shift+cmd+ctrl+d", "ctrl+shift+cmd+d", "shift+ctrl+cmd+d", "cmd+shift+cmd+ctrl+d"] {
        assert_eq!(parse_key_combo(text), expected, "{text}");
    }
    let mods = ModifierState { super_key: false, control: false, alt: true, shift: true };
    let left = KeyCombo::from_winit(&LogicalKey::Named(NamedKey::ArrowLeft), &mods);
    assert_eq!(parse_key_combo("shift+alt+left"), left);
    assert_eq!(parse_key_combo("alt+shift+left"), left);
}
