//! Configurable keyboard shortcuts: the key-combination model, the parser for
//! shortcut strings such as `"cmd+shift+d"`, and the tables that map a
//! combination to a window action or a terminal action.
use vstd::prelude::*;

use crate::input::{LogicalKey, ModifierState, NamedKey};
use crate::text::{
    chars_eq, chars_of, lower_chars, lower_seq, split_chars, split_on, trim, trim_chars,
    ascii_lower, ascii_lower_char, lemma_split_concat, lemma_split_lower, lemma_split_nonempty,
    lemma_split_without_sep, lemma_trim_lower_idempotent, trim_end, trim_start, is_white_space,
};

verus! {

/// The key part of a shortcut.
#[derive(Clone, Copy, Debug, PartialEq, Eq, Hash, Structural)]
pub enum KeyType {
    Char(char),
    Up,
    Down,
    Left,
    Right,
    Backspace,
    Enter,
    F1,
    F2,
    F11,
}

/// A hashable key combination (modifiers + key).
#[derive(Clone, Copy, Debug, PartialEq, Eq, Hash, Structural)]
pub struct KeyCombo {
    /// Super/Win key on Linux.
    pub cmd: bool,
    pub ctrl: bool,
    /// Alt key on Linux.
    pub option: bool,
    pub shift: bool,
    pub key: KeyType,
}

/// Direction of a move between split panes.
#[derive(Clone, Copy, Debug, PartialEq, Eq, Hash, Structural)]
pub enum NavDirection {
    Up,
    Down,
    Left,
    Right,
}

/// Axis along which a split ratio is resized.
#[derive(Clone, Copy, Debug, PartialEq, Eq, Hash, Structural)]
pub enum SplitAxis {
    Horizontal,
    Vertical,
}

/// Window/tab/split actions dispatched from key events.
#[derive(Clone, Copy, Debug, PartialEq, Eq, Structural)]
pub enum Action {
    NewTab,
    ClosePaneOrTab,
    VSplit,
    HSplit,
    VSplitRoot,
    HSplitRoot,
    NewWindow,
    CloseWindow,
    KillWindow,
    Copy,
    Paste,
    ToggleFilter,
    ClearScrollback,
    PrevTab,
    NextTab,
    RenameTab,
    RenamePane,
    DetachTab,
    MergeWindow,
    SwitchTab(usize),
    Navigate(NavDirection),
    SwapPane(NavDirection),
    /// Change of the focused split's ratio, in hundredths of the split.
    Resize(SplitAxis, i32),
    /// Show or hide the help overlay.
    ToggleHelp,
    /// Enter or leave fullscreen.
    ToggleFullscreen,
    /// Save the session now.
    SaveSession,
    /// Move the active tab to the next project.
    MoveTabToNextProject,
    /// Move the active tab to the previous project.
    MoveTabToPrevProject,
    /// Show or leave the grid of all tabs.
    ShowAllTerminals,
}

/// Terminal-level actions dispatched from key events.
#[derive(Clone, Copy, Debug, PartialEq, Eq, Structural)]
pub enum TerminalAction {
    KillLine,
    Home,
    End,
    WordBack,
    WordForward,
    ShiftEnter,
}

/// The map that a sequence of bindings builds when they are inserted in order:
/// a later binding of the same combination replaces an earlier one.
pub open spec fn bindings_map<A>(s: Seq<(KeyCombo, A)>) -> Map<KeyCombo, A>
    decreases s.len(),
{
    if s.len() == 0 {
        Map::empty()
    } else {
        bindings_map(s.drop_last()).insert(s.last().0, s.last().1)
    }
}

/// A table from key combinations to actions, with map semantics. The
/// bindings are kept in the order they were made, and a lookup finds the
/// last binding of the combination by comparing fields: a combination is a
/// struct, and `std`'s hash maps have no specification for such keys that a
/// lookup could be proved against.
pub struct KeyMap<A> {
    entries: Vec<(KeyCombo, A)>,
}

impl<A> View for KeyMap<A> {
    type V = Map<KeyCombo, A>;

    closed spec fn view(&self) -> Map<KeyCombo, A> {
        bindings_map(self.entries@)
    }
}

/// Looking a combination up after a sequence of bindings gives the action of
/// the last binding of that combination, and a combination that was never
/// bound is absent.
pub proof fn lemma_last_binding_wins<A>(s: Seq<(KeyCombo, A)>, k: KeyCombo, idx: int)
    requires
        0 <= idx < s.len(),
        s[idx].0 == k,
        forall|j: int| idx < j < s.len() ==> s[j].0 != k,
    ensures
        bindings_map(s).contains_key(k),
        bindings_map(s)[k] == s[idx].1,
    decreases s.len(),
{
    if idx < s.len() - 1 {
        lemma_last_binding_wins(s.drop_last(), k, idx);
    }
}

/// A combination that no binding names is not in the map.
pub proof fn lemma_unbound_absent<A>(s: Seq<(KeyCombo, A)>, k: KeyCombo)
    requires
        forall|j: int| 0 <= j < s.len() ==> s[j].0 != k,
    ensures
        !bindings_map(s).contains_key(k),
    decreases s.len(),
{
    if s.len() > 0 {
        lemma_unbound_absent(s.drop_last(), k);
    }
}

impl<A> KeyMap<A> {
    /// An empty table.
    pub fn new() -> (m: Self)
        ensures
            m@ == Map::<KeyCombo, A>::empty(),
    {
        KeyMap { entries: Vec::new() }
    }

    /// The table built by inserting `bindings` in order.
    pub fn from_bindings(bindings: Vec<(KeyCombo, A)>) -> (m: Self)
        ensures
            m@ == bindings_map(bindings@),
    {
        KeyMap { entries: bindings }
    }

    /// Binds `k` to `a`, replacing any earlier binding of `k`.
    pub fn insert(&mut self, k: KeyCombo, a: A)
        ensures
            final(self)@ == old(self)@.insert(k, a),
    {
        self.entries.push((k, a));
        proof {
            assert(self.entries@.drop_last() =~= old(self).entries@);
        }
    }

    /// The action bound to `k`, if any.
    pub fn get(&self, k: &KeyCombo) -> (r: Option<&A>)
        ensures
            r == (if self@.contains_key(*k) {
                Some(&self@[*k])
            } else {
                None::<&A>
            }),
    {
        let mut i = self.entries.len();
        while i > 0
            invariant
                i <= self.entries.len(),
                forall|j: int| i <= j < self.entries.len() ==> self.entries@[j].0 != *k,
            decreases i,
        {
            if self.entries[i - 1].0 == *k {
                proof {
                    lemma_last_binding_wins(self.entries@, *k, i - 1);
                }
                return Some(&self.entries[i - 1].1);
            }
            i = i - 1;
        }
        proof {
            lemma_unbound_absent(self.entries@, *k);
        }
        None
    }
}

/// `cmd` or `command`, in any ASCII case, around whitespace.
pub open spec fn names_cmd(p: Seq<char>) -> bool {
    let l = lower_seq(trim(p));
    l == seq!['c', 'm', 'd'] || l == seq!['c', 'o', 'm', 'm', 'a', 'n', 'd']
}

/// `ctrl` or `control`.
pub open spec fn names_ctrl(p: Seq<char>) -> bool {
    let l = lower_seq(trim(p));
    l == seq!['c', 't', 'r', 'l'] || l == seq!['c', 'o', 'n', 't', 'r', 'o', 'l']
}

/// `option`, `alt` or `opt`.
pub open spec fn names_option(p: Seq<char>) -> bool {
    let l = lower_seq(trim(p));
    l == seq!['o', 'p', 't', 'i', 'o', 'n'] || l == seq!['a', 'l', 't'] || l == seq!['o', 'p', 't']
}

/// `shift`.
pub open spec fn names_shift(p: Seq<char>) -> bool {
    lower_seq(trim(p)) == seq!['s', 'h', 'i', 'f', 't']
}

/// The key named by the last part of a shortcut string: one of the named keys,
/// or a single ASCII character, or `'\0'` for anything else.
pub open spec fn key_of_part(p: Seq<char>) -> KeyType {
    let l = lower_seq(trim(p));
    if l == seq!['u', 'p'] {
        KeyType::Up
    } else if l == seq!['d', 'o', 'w', 'n'] {
        KeyType::Down
    } else if l == seq!['l', 'e', 'f', 't'] {
        KeyType::Left
    } else if l == seq!['r', 'i', 'g', 'h', 't'] {
        KeyType::Right
    } else if l == seq!['b', 'a', 'c', 'k', 's', 'p', 'a', 'c', 'e'] || l == seq![
        'd',
        'e',
        'l',
        'e',
        't',
        'e',
    ] {
        KeyType::Backspace
    } else if l == seq!['e', 'n', 't', 'e', 'r'] || l == seq!['r', 'e', 't', 'u', 'r', 'n'] {
        KeyType::Enter
    } else if l == seq!['f', '1'] {
        KeyType::F1
    } else if l == seq!['f', '2'] {
        KeyType::F2
    } else if l == seq!['f', '1', '1'] {
        KeyType::F11
    } else if l.len() == 1 && (l[0] as u32) < 0x80 {
        KeyType::Char(l[0])
    } else {
        KeyType::Char('\0')
    }
}

/// The combination that a shortcut string such as `"cmd+shift+d"` denotes:
/// every part but the last is a modifier (unknown ones are ignored), the last
/// part is the key.
#[verifier::opaque]
pub open spec fn parse_key_combo_spec(s: Seq<char>) -> KeyCombo {
    let parts = split_on(s, '+');
    let n = parts.len();
    KeyCombo {
        cmd: exists|i: int| 0 <= i < n - 1 && #[trigger] names_cmd(parts[i]),
        ctrl: exists|i: int| 0 <= i < n - 1 && #[trigger] names_ctrl(parts[i]),
        option: exists|i: int| 0 <= i < n - 1 && #[trigger] names_option(parts[i]),
        shift: exists|i: int| 0 <= i < n - 1 && #[trigger] names_shift(parts[i]),
        key: key_of_part(parts[n - 1]),
    }
}

fn is_word(l: &Vec<char>, w: &[char]) -> (r: bool)
    ensures
        r == (l@ == w@),
{
    chars_eq(l, w)
}

fn lowered_names_cmd(l: &Vec<char>) -> (r: bool)
    ensures
        r == (l@ == seq!['c', 'm', 'd'] || l@ == seq!['c', 'o', 'm', 'm', 'a', 'n', 'd']),
{
    let a = ['c', 'm', 'd'];
    let b = ['c', 'o', 'm', 'm', 'a', 'n', 'd'];
    proof {
        assert(a@ =~= seq!['c', 'm', 'd']);
        assert(b@ =~= seq!['c', 'o', 'm', 'm', 'a', 'n', 'd']);
    }
    is_word(l, &a) || is_word(l, &b)
}

fn lowered_names_ctrl(l: &Vec<char>) -> (r: bool)
    ensures
        r == (l@ == seq!['c', 't', 'r', 'l'] || l@ == seq!['c', 'o', 'n', 't', 'r', 'o', 'l']),
{
    let a = ['c', 't', 'r', 'l'];
    let b = ['c', 'o', 'n', 't', 'r', 'o', 'l'];
    proof {
        assert(a@ =~= seq!['c', 't', 'r', 'l']);
        assert(b@ =~= seq!['c', 'o', 'n', 't', 'r', 'o', 'l']);
    }
    is_word(l, &a) || is_word(l, &b)
}

fn lowered_names_option(l: &Vec<char>) -> (r: bool)
    ensures
        r == (l@ == seq!['o', 'p', 't', 'i', 'o', 'n'] || l@ == seq!['a', 'l', 't'] || l@ == seq![
            'o',
            'p',
            't',
        ]),
{
    let a = ['o', 'p', 't', 'i', 'o', 'n'];
    let b = ['a', 'l', 't'];
    let c = ['o', 'p', 't'];
    proof {
        assert(a@ =~= seq!['o', 'p', 't', 'i', 'o', 'n']);
        assert(b@ =~= seq!['a', 'l', 't']);
        assert(c@ =~= seq!['o', 'p', 't']);
    }
    is_word(l, &a) || is_word(l, &b) || is_word(l, &c)
}

fn lowered_names_shift(l: &Vec<char>) -> (r: bool)
    ensures
        r == (l@ == seq!['s', 'h', 'i', 'f', 't']),
{
    let a = ['s', 'h', 'i', 'f', 't'];
    proof {
        assert(a@ =~= seq!['s', 'h', 'i', 'f', 't']);
    }
    is_word(l, &a)
}

fn key_of_lowered(l: &Vec<char>) -> (k: KeyType)
    ensures
        forall|p: Seq<char>| lower_seq(trim(p)) == l@ ==> k == key_of_part(p),
{
    if chars_eq(l, &['u', 'p']) {
        KeyType::Up
    } else if chars_eq(l, &['d', 'o', 'w', 'n']) {
        KeyType::Down
    } else if chars_eq(l, &['l', 'e', 'f', 't']) {
        KeyType::Left
    } else if chars_eq(l, &['r', 'i', 'g', 'h', 't']) {
        KeyType::Right
    } else if chars_eq(l, &['b', 'a', 'c', 'k', 's', 'p', 'a', 'c', 'e']) || chars_eq(
        l,
        &['d', 'e', 'l', 'e', 't', 'e'],
    ) {
        KeyType::Backspace
    } else if chars_eq(l, &['e', 'n', 't', 'e', 'r']) || chars_eq(
        l,
        &['r', 'e', 't', 'u', 'r', 'n'],
    ) {
        KeyType::Enter
    } else if chars_eq(l, &['f', '1']) {
        KeyType::F1
    } else if chars_eq(l, &['f', '2']) {
        KeyType::F2
    } else if chars_eq(l, &['f', '1', '1']) {
        KeyType::F11
    } else if l.len() == 1 && (l[0] as u32) < 0x80 {
        KeyType::Char(l[0])
    } else {
        KeyType::Char('\0')
    }
}

/// Parse a string like "cmd+shift+d" into a KeyCombo.
pub fn parse_key_combo(s: &str) -> (combo: KeyCombo)
    ensures
        combo == parse_key_combo_spec(s@),
{
    proof {
        reveal(parse_key_combo_spec);
    }
    let chars = chars_of(s);
    let parts = split_chars(&chars, '+');
    let ghost sp = split_on(s@, '+');
    proof {
        lemma_split_nonempty(s@, '+');
    }
    let num_parts = parts.len();
    let mut combo = KeyCombo { cmd: false, ctrl: false, option: false, shift: false, key: KeyType::Char('\0') };
    let mut i: usize = 0;
    while i < num_parts
        invariant
            num_parts == parts.len(),
            num_parts == sp.len(),
            num_parts >= 1,
            forall|j: int| 0 <= j < parts.len() ==> #[trigger] parts[j]@ == sp[j],
            i <= num_parts,
            combo.cmd == (exists|j: int| 0 <= j < i && j < num_parts - 1 && #[trigger] names_cmd(sp[j])),
            combo.ctrl == (exists|j: int| 0 <= j < i && j < num_parts - 1 && #[trigger] names_ctrl(sp[j])),
            combo.option == (exists|j: int|
                0 <= j < i && j < num_parts - 1 && #[trigger] names_option(sp[j])),
            combo.shift == (exists|j: int|
                0 <= j < i && j < num_parts - 1 && #[trigger] names_shift(sp[j])),
            i == num_parts ==> combo.key == key_of_part(sp[num_parts - 1]),
        decreases num_parts - i,
    {
        let trimmed = trim_chars(&parts[i]);
        let lower = lower_chars(&trimmed);
        proof {
            assert(parts[i as int]@ == sp[i as int]);
            assert(lower@ == lower_seq(trim(sp[i as int])));
        }
        let ghost lowered_is_cmd = lower@ == seq!['c', 'm', 'd'] || lower@ == seq![
            'c',
            'o',
            'm',
            'm',
            'a',
            'n',
            'd',
        ];
        let ghost lowered_is_ctrl = lower@ == seq!['c', 't', 'r', 'l'] || lower@ == seq![
            'c',
            'o',
            'n',
            't',
            'r',
            'o',
            'l',
        ];
        let ghost lowered_is_option = lower@ == seq!['o', 'p', 't', 'i', 'o', 'n'] || lower@ == seq![
            'a',
            'l',
            't',
        ] || lower@ == seq!['o', 'p', 't'];
        let ghost lowered_is_shift = lower@ == seq!['s', 'h', 'i', 'f', 't'];
        if i < num_parts - 1 {
            if lowered_names_cmd(&lower) {
                combo.cmd = true;
            } else if lowered_names_ctrl(&lower) {
                combo.ctrl = true;
            } else if lowered_names_option(&lower) {
                combo.option = true;
            } else if lowered_names_shift(&lower) {
                combo.shift = true;
            }
            proof {
                let p = sp[i as int];
                assert(names_cmd(p) == lowered_is_cmd);
                assert(names_ctrl(p) == lowered_is_ctrl);
                assert(names_option(p) == lowered_is_option);
                assert(names_shift(p) == lowered_is_shift);
                assert(names_cmd(p) ==> combo.cmd);
                assert(names_ctrl(p) ==> combo.ctrl);
                assert(names_option(p) ==> combo.option);
                assert(names_shift(p) ==> combo.shift);
                assert(combo.cmd == (exists|j: int|
                    0 <= j < i + 1 && j < num_parts - 1 && #[trigger] names_cmd(sp[j])));
                assert(combo.ctrl == (exists|j: int|
                    0 <= j < i + 1 && j < num_parts - 1 && #[trigger] names_ctrl(sp[j])));
                assert(combo.option == (exists|j: int|
                    0 <= j < i + 1 && j < num_parts - 1 && #[trigger] names_option(sp[j])));
                assert(combo.shift == (exists|j: int|
                    0 <= j < i + 1 && j < num_parts - 1 && #[trigger] names_shift(sp[j])));
            }
        } else {
            combo.key = key_of_lowered(&lower);
        }
        i = i + 1;
    }
    combo
}

/// Shortcut strings are read without regard to ASCII case: a string and its
/// lower-cased form denote the same combination.
pub proof fn lemma_parse_ignores_case(s: Seq<char>)
    ensures
        parse_key_combo_spec(lower_seq(s)) == parse_key_combo_spec(s),
{
    reveal(parse_key_combo_spec);
    let parts = split_on(s, '+');
    let lparts = split_on(lower_seq(s), '+');
    lemma_split_nonempty(s, '+');
    lemma_split_lower(s, '+');
    assert forall|i: int| 0 <= i < parts.len() implies lower_seq(trim(#[trigger] lparts[i]))
        == lower_seq(trim(parts[i])) by {
        lemma_trim_lower_idempotent(parts[i]);
    }
    let n = parts.len();
    assert(lower_seq(trim(lparts[n - 1])) == lower_seq(trim(parts[n - 1])));
    assert(key_of_part(lparts[n - 1]) == key_of_part(parts[n - 1]));
    assert((exists|i: int| 0 <= i < n - 1 && #[trigger] names_cmd(lparts[i])) == (exists|i: int|
        0 <= i < n - 1 && #[trigger] names_cmd(parts[i]))) by {
        if exists|i: int| 0 <= i < n - 1 && #[trigger] names_cmd(parts[i]) {
            let i = choose|i: int| 0 <= i < n - 1 && #[trigger] names_cmd(parts[i]);
            assert(lower_seq(trim(lparts[i])) == lower_seq(trim(parts[i])));
            assert(names_cmd(lparts[i]));
        }
        if exists|i: int| 0 <= i < n - 1 && #[trigger] names_cmd(lparts[i]) {
            let i = choose|i: int| 0 <= i < n - 1 && #[trigger] names_cmd(lparts[i]);
            assert(lower_seq(trim(lparts[i])) == lower_seq(trim(parts[i])));
            assert(names_cmd(parts[i]));
        }
    }
    assert((exists|i: int| 0 <= i < n - 1 && #[trigger] names_ctrl(lparts[i])) == (exists|i: int|
        0 <= i < n - 1 && #[trigger] names_ctrl(parts[i]))) by {
        if exists|i: int| 0 <= i < n - 1 && #[trigger] names_ctrl(parts[i]) {
            let i = choose|i: int| 0 <= i < n - 1 && #[trigger] names_ctrl(parts[i]);
            assert(lower_seq(trim(lparts[i])) == lower_seq(trim(parts[i])));
            assert(names_ctrl(lparts[i]));
        }
        if exists|i: int| 0 <= i < n - 1 && #[trigger] names_ctrl(lparts[i]) {
            let i = choose|i: int| 0 <= i < n - 1 && #[trigger] names_ctrl(lparts[i]);
            assert(lower_seq(trim(lparts[i])) == lower_seq(trim(parts[i])));
            assert(names_ctrl(parts[i]));
        }
    }
    assert((exists|i: int| 0 <= i < n - 1 && #[trigger] names_option(lparts[i])) == (exists|
        i: int,
    | 0 <= i < n - 1 && #[trigger] names_option(parts[i]))) by {
        if exists|i: int| 0 <= i < n - 1 && #[trigger] names_option(parts[i]) {
            let i = choose|i: int| 0 <= i < n - 1 && #[trigger] names_option(parts[i]);
            assert(lower_seq(trim(lparts[i])) == lower_seq(trim(parts[i])));
            assert(names_option(lparts[i]));
        }
        if exists|i: int| 0 <= i < n - 1 && #[trigger] names_option(lparts[i]) {
            let i = choose|i: int| 0 <= i < n - 1 && #[trigger] names_option(lparts[i]);
            assert(lower_seq(trim(lparts[i])) == lower_seq(trim(parts[i])));
            assert(names_option(parts[i]));
        }
    }
    assert((exists|i: int| 0 <= i < n - 1 && #[trigger] names_shift(lparts[i])) == (exists|i: int|
        0 <= i < n - 1 && #[trigger] names_shift(parts[i]))) by {
        if exists|i: int| 0 <= i < n - 1 && #[trigger] names_shift(parts[i]) {
            let i = choose|i: int| 0 <= i < n - 1 && #[trigger] names_shift(parts[i]);
            assert(lower_seq(trim(lparts[i])) == lower_seq(trim(parts[i])));
            assert(names_shift(lparts[i]));
        }
        if exists|i: int| 0 <= i < n - 1 && #[trigger] names_shift(lparts[i]) {
            let i = choose|i: int| 0 <= i < n - 1 && #[trigger] names_shift(lparts[i]);
            assert(lower_seq(trim(lparts[i])) == lower_seq(trim(parts[i])));
            assert(names_shift(parts[i]));
        }
    }
}

/// The index of a part after the first two parts change places.
spec fn swapped_index(i: int) -> int {
    if i == 0 {
        1
    } else if i == 1 {
        0
    } else {
        i
    }
}

/// Two part lists that differ by the order of their first two parts name the
/// same modifiers and the same key.
proof fn lemma_swapped_modifiers(p1: Seq<Seq<char>>, p2: Seq<Seq<char>>)
    requires
        p1.len() == p2.len(),
        p1.len() >= 3,
        p1[0] == p2[1],
        p1[1] == p2[0],
        forall|i: int| 2 <= i < p1.len() ==> p1[i] == p2[i],
    ensures
        p1.last() == p2.last(),
        (exists|i: int| 0 <= i < p1.len() - 1 && #[trigger] names_cmd(p1[i])) == (exists|i: int|
            0 <= i < p2.len() - 1 && #[trigger] names_cmd(p2[i])),
        (exists|i: int| 0 <= i < p1.len() - 1 && #[trigger] names_ctrl(p1[i])) == (exists|i: int|
            0 <= i < p2.len() - 1 && #[trigger] names_ctrl(p2[i])),
        (exists|i: int| 0 <= i < p1.len() - 1 && #[trigger] names_option(p1[i])) == (exists|
            i: int,
        | 0 <= i < p2.len() - 1 && #[trigger] names_option(p2[i])),
        (exists|i: int| 0 <= i < p1.len() - 1 && #[trigger] names_shift(p1[i])) == (exists|i: int|
            0 <= i < p2.len() - 1 && #[trigger] names_shift(p2[i])),
{
    let n = p1.len();
    assert(p1[n - 1] == p2[n - 1]);
    if exists|i: int| 0 <= i < n - 1 && #[trigger] names_cmd(p1[i]) {
        let i = choose|i: int| 0 <= i < n - 1 && #[trigger] names_cmd(p1[i]);
        assert(names_cmd(p2[swapped_index(i)]));
    }
    if exists|i: int| 0 <= i < n - 1 && #[trigger] names_cmd(p2[i]) {
        let i = choose|i: int| 0 <= i < n - 1 && #[trigger] names_cmd(p2[i]);
        assert(names_cmd(p1[swapped_index(i)]));
    }
    if exists|i: int| 0 <= i < n - 1 && #[trigger] names_ctrl(p1[i]) {
        let i = choose|i: int| 0 <= i < n - 1 && #[trigger] names_ctrl(p1[i]);
        assert(names_ctrl(p2[swapped_index(i)]));
    }
    if exists|i: int| 0 <= i < n - 1 && #[trigger] names_ctrl(p2[i]) {
        let i = choose|i: int| 0 <= i < n - 1 && #[trigger] names_ctrl(p2[i]);
        assert(names_ctrl(p1[swapped_index(i)]));
    }
    if exists|i: int| 0 <= i < n - 1 && #[trigger] names_option(p1[i]) {
        let i = choose|i: int| 0 <= i < n - 1 && #[trigger] names_option(p1[i]);
        assert(names_option(p2[swapped_index(i)]));
    }
    if exists|i: int| 0 <= i < n - 1 && #[trigger] names_option(p2[i]) {
        let i = choose|i: int| 0 <= i < n - 1 && #[trigger] names_option(p2[i]);
        assert(names_option(p1[swapped_index(i)]));
    }
    if exists|i: int| 0 <= i < n - 1 && #[trigger] names_shift(p1[i]) {
        let i = choose|i: int| 0 <= i < n - 1 && #[trigger] names_shift(p1[i]);
        assert(names_shift(p2[swapped_index(i)]));
    }
    if exists|i: int| 0 <= i < n - 1 && #[trigger] names_shift(p2[i]) {
        let i = choose|i: int| 0 <= i < n - 1 && #[trigger] names_shift(p2[i]);
        assert(names_shift(p1[swapped_index(i)]));
    }
}

/// The order of the modifiers in a shortcut string does not matter:
/// exchanging two modifier parts denotes the same combination.
pub proof fn lemma_parse_modifier_order(m1: Seq<char>, m2: Seq<char>, rest: Seq<char>)
    requires
        !m1.contains('+'),
        !m2.contains('+'),
    ensures
        parse_key_combo_spec(m1 + seq!['+'] + m2 + seq!['+'] + rest) == parse_key_combo_spec(
            m2 + seq!['+'] + m1 + seq!['+'] + rest,
        ),
{
    reveal(parse_key_combo_spec);
    let s1 = m1 + seq!['+'] + m2 + seq!['+'] + rest;
    let s2 = m2 + seq!['+'] + m1 + seq!['+'] + rest;
    assert(s1 =~= m1 + seq!['+'] + (m2 + seq!['+'] + rest));
    assert(s2 =~= m2 + seq!['+'] + (m1 + seq!['+'] + rest));
    lemma_split_concat(m1, m2 + seq!['+'] + rest, '+');
    lemma_split_concat(m2, rest, '+');
    lemma_split_concat(m2, m1 + seq!['+'] + rest, '+');
    lemma_split_concat(m1, rest, '+');
    lemma_split_without_sep(m1, '+');
    lemma_split_without_sep(m2, '+');
    lemma_split_nonempty(rest, '+');
    let r = split_on(rest, '+');
    let p1 = split_on(s1, '+');
    let p2 = split_on(s2, '+');
    assert(p1 =~= seq![m1, m2] + r);
    assert(p2 =~= seq![m2, m1] + r);
    assert(p1.last() == p2.last());
    lemma_swapped_modifiers(p1, p2);
}

/// The shortcut strings of the window-level actions.
pub struct KeysConfig {
    pub new_tab: String,
    pub close_pane_or_tab: String,
    pub vsplit: String,
    pub hsplit: String,
    pub vsplit_root: String,
    pub hsplit_root: String,
    pub new_window: String,
    pub close_window: String,
    pub kill_window: String,
    pub copy: String,
    pub paste: String,
    pub toggle_filter: String,
    pub clear_scrollback: String,
    pub prev_tab: String,
    pub next_tab: String,
    pub rename_tab: String,
    pub rename_pane: String,
    pub detach_tab: String,
    pub merge_window: String,
    pub switch_tab_1: String,
    pub switch_tab_2: String,
    pub switch_tab_3: String,
    pub switch_tab_4: String,
    pub switch_tab_5: String,
    pub switch_tab_6: String,
    pub switch_tab_7: String,
    pub switch_tab_8: String,
    pub switch_tab_9: String,
    pub navigate_up: String,
    pub navigate_down: String,
    pub navigate_left: String,
    pub navigate_right: String,
    pub swap_up: String,
    pub swap_down: String,
    pub swap_left: String,
    pub swap_right: String,
    pub resize_left: String,
    pub resize_right: String,
    pub resize_up: String,
    pub resize_down: String,
    pub terminal: TerminalKeysConfig,
}

/// The shortcut strings of the terminal-level actions.
pub struct TerminalKeysConfig {
    pub kill_line: String,
    pub home: String,
    pub end: String,
    pub word_back: String,
    pub word_forward: String,
    pub shift_enter: String,
}

/// A combination given by its modifiers and key.
pub open spec fn combo(cmd: bool, ctrl: bool, option: bool, shift: bool, key: KeyType) -> KeyCombo {
    KeyCombo { cmd, ctrl, option, shift, key }
}

/// The window bindings that do not depend on the configuration: F1 help,
/// F2 save session, F11 fullscreen, Super+0 all tabs, Super+Alt+Shift+Left
/// and Right to move a tab between projects, and Ctrl+Shift+C and
/// Ctrl+Shift+V as further copy and paste keys.
pub open spec fn fixed_window_bindings() -> Seq<(KeyCombo, Action)> {
    seq![
        (combo(false, false, false, false, KeyType::F1), Action::ToggleHelp),
        (combo(false, false, false, false, KeyType::F2), Action::SaveSession),
        (combo(false, false, false, false, KeyType::F11), Action::ToggleFullscreen),
        (combo(true, false, false, false, KeyType::Char('0')), Action::ShowAllTerminals),
        (combo(true, false, true, true, KeyType::Left), Action::MoveTabToPrevProject),
        (combo(true, false, true, true, KeyType::Right), Action::MoveTabToNextProject),
        (combo(false, true, false, true, KeyType::Char('c')), Action::Copy),
        (combo(false, true, false, true, KeyType::Char('v')), Action::Paste)
    ]
}

fn fixed_bindings() -> (v: Vec<(KeyCombo, Action)>)
    ensures
        v@ == fixed_window_bindings(),
{
    let v = vec![
        (KeyCombo { cmd: false, ctrl: false, option: false, shift: false, key: KeyType::F1 }, Action::ToggleHelp),
        (KeyCombo { cmd: false, ctrl: false, option: false, shift: false, key: KeyType::F2 }, Action::SaveSession),
        (KeyCombo { cmd: false, ctrl: false, option: false, shift: false, key: KeyType::F11 }, Action::ToggleFullscreen),
        (KeyCombo { cmd: true, ctrl: false, option: false, shift: false, key: KeyType::Char('0') }, Action::ShowAllTerminals),
        (KeyCombo { cmd: true, ctrl: false, option: true, shift: true, key: KeyType::Left }, Action::MoveTabToPrevProject),
        (KeyCombo { cmd: true, ctrl: false, option: true, shift: true, key: KeyType::Right }, Action::MoveTabToNextProject),
        (KeyCombo { cmd: false, ctrl: true, option: false, shift: true, key: KeyType::Char('c') }, Action::Copy),
        (KeyCombo { cmd: false, ctrl: true, option: false, shift: true, key: KeyType::Char('v') }, Action::Paste),
    ];
    proof {
        assert(v@ =~= fixed_window_bindings());
    }
    v
}

/// The window bindings in the order in which they are installed: the fixed
/// ones first, so that a configured shortcut for the same combination wins.
pub open spec fn window_bindings(keys: KeysConfig) -> Seq<(KeyCombo, Action)> {
    fixed_window_bindings() + seq![
        (parse_key_combo_spec(keys.new_tab@), Action::NewTab),
        (parse_key_combo_spec(keys.close_pane_or_tab@), Action::ClosePaneOrTab),
        (parse_key_combo_spec(keys.vsplit@), Action::VSplit),
        (parse_key_combo_spec(keys.hsplit@), Action::HSplit),
        (parse_key_combo_spec(keys.vsplit_root@), Action::VSplitRoot),
        (parse_key_combo_spec(keys.hsplit_root@), Action::HSplitRoot),
        (parse_key_combo_spec(keys.new_window@), Action::NewWindow),
        (parse_key_combo_spec(keys.close_window@), Action::CloseWindow),
        (parse_key_combo_spec(keys.kill_window@), Action::KillWindow),
        (parse_key_combo_spec(keys.copy@), Action::Copy),
        (parse_key_combo_spec(keys.paste@), Action::Paste),
        (parse_key_combo_spec(keys.toggle_filter@), Action::ToggleFilter),
        (parse_key_combo_spec(keys.clear_scrollback@), Action::ClearScrollback),
        (parse_key_combo_spec(keys.prev_tab@), Action::PrevTab),
        (parse_key_combo_spec(keys.next_tab@), Action::NextTab),
        (parse_key_combo_spec(keys.rename_tab@), Action::RenameTab),
        (parse_key_combo_spec(keys.rename_pane@), Action::RenamePane),
        (parse_key_combo_spec(keys.detach_tab@), Action::DetachTab),
        (parse_key_combo_spec(keys.merge_window@), Action::MergeWindow),
        (parse_key_combo_spec(keys.switch_tab_1@), Action::SwitchTab(0)),
        (parse_key_combo_spec(keys.switch_tab_2@), Action::SwitchTab(1)),
        (parse_key_combo_spec(keys.switch_tab_3@), Action::SwitchTab(2)),
        (parse_key_combo_spec(keys.switch_tab_4@), Action::SwitchTab(3)),
        (parse_key_combo_spec(keys.switch_tab_5@), Action::SwitchTab(4)),
        (parse_key_combo_spec(keys.switch_tab_6@), Action::SwitchTab(5)),
        (parse_key_combo_spec(keys.switch_tab_7@), Action::SwitchTab(6)),
        (parse_key_combo_spec(keys.switch_tab_8@), Action::SwitchTab(7)),
        (parse_key_combo_spec(keys.switch_tab_9@), Action::SwitchTab(8)),
        (parse_key_combo_spec(keys.navigate_up@), Action::Navigate(NavDirection::Up)),
        (parse_key_combo_spec(keys.navigate_down@), Action::Navigate(NavDirection::Down)),
        (parse_key_combo_spec(keys.navigate_left@), Action::Navigate(NavDirection::Left)),
        (parse_key_combo_spec(keys.navigate_right@), Action::Navigate(NavDirection::Right)),
        (parse_key_combo_spec(keys.swap_up@), Action::SwapPane(NavDirection::Up)),
        (parse_key_combo_spec(keys.swap_down@), Action::SwapPane(NavDirection::Down)),
        (parse_key_combo_spec(keys.swap_left@), Action::SwapPane(NavDirection::Left)),
        (parse_key_combo_spec(keys.swap_right@), Action::SwapPane(NavDirection::Right)),
        (parse_key_combo_spec(keys.resize_left@), Action::Resize(SplitAxis::Horizontal, -5i32)),
        (parse_key_combo_spec(keys.resize_right@), Action::Resize(SplitAxis::Horizontal, 5i32)),
        (parse_key_combo_spec(keys.resize_up@), Action::Resize(SplitAxis::Vertical, -5i32)),
        (parse_key_combo_spec(keys.resize_down@), Action::Resize(SplitAxis::Vertical, 5i32))
    ]
}

/// The combinations that the configured window shortcut strings denote, in
/// the order of the fields of [`KeysConfig`].
pub open spec fn configured_combos(keys: KeysConfig) -> Seq<KeyCombo> {
    seq![
        parse_key_combo_spec(keys.new_tab@),
        parse_key_combo_spec(keys.close_pane_or_tab@),
        parse_key_combo_spec(keys.vsplit@),
        parse_key_combo_spec(keys.hsplit@),
        parse_key_combo_spec(keys.vsplit_root@),
        parse_key_combo_spec(keys.hsplit_root@),
        parse_key_combo_spec(keys.new_window@),
        parse_key_combo_spec(keys.close_window@),
        parse_key_combo_spec(keys.kill_window@),
        parse_key_combo_spec(keys.copy@),
        parse_key_combo_spec(keys.paste@),
        parse_key_combo_spec(keys.toggle_filter@),
        parse_key_combo_spec(keys.clear_scrollback@),
        parse_key_combo_spec(keys.prev_tab@),
        parse_key_combo_spec(keys.next_tab@),
        parse_key_combo_spec(keys.rename_tab@),
        parse_key_combo_spec(keys.rename_pane@),
        parse_key_combo_spec(keys.detach_tab@),
        parse_key_combo_spec(keys.merge_window@),
        parse_key_combo_spec(keys.switch_tab_1@),
        parse_key_combo_spec(keys.switch_tab_2@),
        parse_key_combo_spec(keys.switch_tab_3@),
        parse_key_combo_spec(keys.switch_tab_4@),
        parse_key_combo_spec(keys.switch_tab_5@),
        parse_key_combo_spec(keys.switch_tab_6@),
        parse_key_combo_spec(keys.switch_tab_7@),
        parse_key_combo_spec(keys.switch_tab_8@),
        parse_key_combo_spec(keys.switch_tab_9@),
        parse_key_combo_spec(keys.navigate_up@),
        parse_key_combo_spec(keys.navigate_down@),
        parse_key_combo_spec(keys.navigate_left@),
        parse_key_combo_spec(keys.navigate_right@),
        parse_key_combo_spec(keys.swap_up@),
        parse_key_combo_spec(keys.swap_down@),
        parse_key_combo_spec(keys.swap_left@),
        parse_key_combo_spec(keys.swap_right@),
        parse_key_combo_spec(keys.resize_left@),
        parse_key_combo_spec(keys.resize_right@),
        parse_key_combo_spec(keys.resize_up@),
        parse_key_combo_spec(keys.resize_down@)
    ]
}

/// Whether no field after field `i` of [`configured_combos`] denotes the
/// same combination.
pub open spec fn later_field_unique(keys: KeysConfig, i: int) -> bool {
    forall|j: int|
        i < j < configured_combos(keys).len() ==> #[trigger] configured_combos(keys)[j]
            != configured_combos(keys)[i]
}

proof fn lemma_configured_field_bound(keys: KeysConfig, i: int)
    requires
        0 <= i < 40,
        later_field_unique(keys, i),
    ensures
        bindings_map(window_bindings(keys)).contains_key(configured_combos(keys)[i]),
        bindings_map(window_bindings(keys))[configured_combos(keys)[i]] == window_bindings(
            keys,
        )[8 + i].1,
{
    let wb = window_bindings(keys);
    let cs = configured_combos(keys);
    assert(wb.len() == 8 + 40);
    assert forall|j: int| 0 <= j < 40 implies #[trigger] wb[8 + j].0 == cs[j] by {
        assert(wb.subrange(8, 48).map_values(|p: (KeyCombo, Action)| p.0) =~= cs);
        assert(wb.subrange(8, 48).map_values(|p: (KeyCombo, Action)| p.0)[j] == wb[8 + j].0);
    }
    assert forall|j: int| 8 + i < j < wb.len() implies wb[j].0 != cs[i] by {
        assert(wb[8 + (j - 8)].0 == cs[j - 8]);
    }
    lemma_last_binding_wins(wb, cs[i], 8 + i);
}

/// Every configured window shortcut is bound to its own action: the
/// combination a field's string denotes maps to that field's action
/// (`navigate_up` to moving the focus up, `switch_tab_3` to the third tab,
/// and so on), unless a field after it denotes the same combination.
#[verifier::spinoff_prover]
#[verifier::rlimit(100)]
pub proof fn lemma_configured_shortcuts_bound(keys: KeysConfig)
    ensures
        later_field_unique(keys, 0) ==> bindings_map(window_bindings(keys))[parse_key_combo_spec(
            keys.new_tab@,
        )] == Action::NewTab,
        later_field_unique(keys, 1) ==> bindings_map(window_bindings(keys))[parse_key_combo_spec(
            keys.close_pane_or_tab@,
        )] == Action::ClosePaneOrTab,
        later_field_unique(keys, 2) ==> bindings_map(window_bindings(keys))[parse_key_combo_spec(
            keys.vsplit@,
        )] == Action::VSplit,
        later_field_unique(keys, 3) ==> bindings_map(window_bindings(keys))[parse_key_combo_spec(
            keys.hsplit@,
        )] == Action::HSplit,
        later_field_unique(keys, 4) ==> bindings_map(window_bindings(keys))[parse_key_combo_spec(
            keys.vsplit_root@,
        )] == Action::VSplitRoot,
        later_field_unique(keys, 5) ==> bindings_map(window_bindings(keys))[parse_key_combo_spec(
            keys.hsplit_root@,
        )] == Action::HSplitRoot,
        later_field_unique(keys, 6) ==> bindings_map(window_bindings(keys))[parse_key_combo_spec(
            keys.new_window@,
        )] == Action::NewWindow,
        later_field_unique(keys, 7) ==> bindings_map(window_bindings(keys))[parse_key_combo_spec(
            keys.close_window@,
        )] == Action::CloseWindow,
        later_field_unique(keys, 8) ==> bindings_map(window_bindings(keys))[parse_key_combo_spec(
            keys.kill_window@,
        )] == Action::KillWindow,
        later_field_unique(keys, 9) ==> bindings_map(window_bindings(keys))[parse_key_combo_spec(
            keys.copy@,
        )] == Action::Copy,
        later_field_unique(keys, 10) ==> bindings_map(window_bindings(keys))[parse_key_combo_spec(
            keys.paste@,
        )] == Action::Paste,
        later_field_unique(keys, 11) ==> bindings_map(window_bindings(keys))[parse_key_combo_spec(
            keys.toggle_filter@,
        )] == Action::ToggleFilter,
        later_field_unique(keys, 12) ==> bindings_map(window_bindings(keys))[parse_key_combo_spec(
            keys.clear_scrollback@,
        )] == Action::ClearScrollback,
        later_field_unique(keys, 13) ==> bindings_map(window_bindings(keys))[parse_key_combo_spec(
            keys.prev_tab@,
        )] == Action::PrevTab,
        later_field_unique(keys, 14) ==> bindings_map(window_bindings(keys))[parse_key_combo_spec(
            keys.next_tab@,
        )] == Action::NextTab,
        later_field_unique(keys, 15) ==> bindings_map(window_bindings(keys))[parse_key_combo_spec(
            keys.rename_tab@,
        )] == Action::RenameTab,
        later_field_unique(keys, 16) ==> bindings_map(window_bindings(keys))[parse_key_combo_spec(
            keys.rename_pane@,
        )] == Action::RenamePane,
        later_field_unique(keys, 17) ==> bindings_map(window_bindings(keys))[parse_key_combo_spec(
            keys.detach_tab@,
        )] == Action::DetachTab,
        later_field_unique(keys, 18) ==> bindings_map(window_bindings(keys))[parse_key_combo_spec(
            keys.merge_window@,
        )] == Action::MergeWindow,
        later_field_unique(keys, 19) ==> bindings_map(window_bindings(keys))[parse_key_combo_spec(
            keys.switch_tab_1@,
        )] == Action::SwitchTab(0),
        later_field_unique(keys, 20) ==> bindings_map(window_bindings(keys))[parse_key_combo_spec(
            keys.switch_tab_2@,
        )] == Action::SwitchTab(1),
        later_field_unique(keys, 21) ==> bindings_map(window_bindings(keys))[parse_key_combo_spec(
            keys.switch_tab_3@,
        )] == Action::SwitchTab(2),
        later_field_unique(keys, 22) ==> bindings_map(window_bindings(keys))[parse_key_combo_spec(
            keys.switch_tab_4@,
        )] == Action::SwitchTab(3),
        later_field_unique(keys, 23) ==> bindings_map(window_bindings(keys))[parse_key_combo_spec(
            keys.switch_tab_5@,
        )] == Action::SwitchTab(4),
        later_field_unique(keys, 24) ==> bindings_map(window_bindings(keys))[parse_key_combo_spec(
            keys.switch_tab_6@,
        )] == Action::SwitchTab(5),
        later_field_unique(keys, 25) ==> bindings_map(window_bindings(keys))[parse_key_combo_spec(
            keys.switch_tab_7@,
        )] == Action::SwitchTab(6),
        later_field_unique(keys, 26) ==> bindings_map(window_bindings(keys))[parse_key_combo_spec(
            keys.switch_tab_8@,
        )] == Action::SwitchTab(7),
        later_field_unique(keys, 27) ==> bindings_map(window_bindings(keys))[parse_key_combo_spec(
            keys.switch_tab_9@,
        )] == Action::SwitchTab(8),
        later_field_unique(keys, 28) ==> bindings_map(window_bindings(keys))[parse_key_combo_spec(
            keys.navigate_up@,
        )] == Action::Navigate(NavDirection::Up),
        later_field_unique(keys, 29) ==> bindings_map(window_bindings(keys))[parse_key_combo_spec(
            keys.navigate_down@,
        )] == Action::Navigate(NavDirection::Down),
        later_field_unique(keys, 30) ==> bindings_map(window_bindings(keys))[parse_key_combo_spec(
            keys.navigate_left@,
        )] == Action::Navigate(NavDirection::Left),
        later_field_unique(keys, 31) ==> bindings_map(window_bindings(keys))[parse_key_combo_spec(
            keys.navigate_right@,
        )] == Action::Navigate(NavDirection::Right),
        later_field_unique(keys, 32) ==> bindings_map(window_bindings(keys))[parse_key_combo_spec(
            keys.swap_up@,
        )] == Action::SwapPane(NavDirection::Up),
        later_field_unique(keys, 33) ==> bindings_map(window_bindings(keys))[parse_key_combo_spec(
            keys.swap_down@,
        )] == Action::SwapPane(NavDirection::Down),
        later_field_unique(keys, 34) ==> bindings_map(window_bindings(keys))[parse_key_combo_spec(
            keys.swap_left@,
        )] == Action::SwapPane(NavDirection::Left),
        later_field_unique(keys, 35) ==> bindings_map(window_bindings(keys))[parse_key_combo_spec(
            keys.swap_right@,
        )] == Action::SwapPane(NavDirection::Right),
        later_field_unique(keys, 36) ==> bindings_map(window_bindings(keys))[parse_key_combo_spec(
            keys.resize_left@,
        )] == Action::Resize(SplitAxis::Horizontal, -5i32),
        later_field_unique(keys, 37) ==> bindings_map(window_bindings(keys))[parse_key_combo_spec(
            keys.resize_right@,
        )] == Action::Resize(SplitAxis::Horizontal, 5i32),
        later_field_unique(keys, 38) ==> bindings_map(window_bindings(keys))[parse_key_combo_spec(
            keys.resize_up@,
        )] == Action::Resize(SplitAxis::Vertical, -5i32),
        later_field_unique(keys, 39) ==> bindings_map(window_bindings(keys))[parse_key_combo_spec(
            keys.resize_down@,
        )] == Action::Resize(SplitAxis::Vertical, 5i32),
{
    if later_field_unique(keys, 0) {
        lemma_configured_field_bound(keys, 0);
    }
    if later_field_unique(keys, 1) {
        lemma_configured_field_bound(keys, 1);
    }
    if later_field_unique(keys, 2) {
        lemma_configured_field_bound(keys, 2);
    }
    if later_field_unique(keys, 3) {
        lemma_configured_field_bound(keys, 3);
    }
    if later_field_unique(keys, 4) {
        lemma_configured_field_bound(keys, 4);
    }
    if later_field_unique(keys, 5) {
        lemma_configured_field_bound(keys, 5);
    }
    if later_field_unique(keys, 6) {
        lemma_configured_field_bound(keys, 6);
    }
    if later_field_unique(keys, 7) {
        lemma_configured_field_bound(keys, 7);
    }
    if later_field_unique(keys, 8) {
        lemma_configured_field_bound(keys, 8);
    }
    if later_field_unique(keys, 9) {
        lemma_configured_field_bound(keys, 9);
    }
    if later_field_unique(keys, 10) {
        lemma_configured_field_bound(keys, 10);
    }
    if later_field_unique(keys, 11) {
        lemma_configured_field_bound(keys, 11);
    }
    if later_field_unique(keys, 12) {
        lemma_configured_field_bound(keys, 12);
    }
    if later_field_unique(keys, 13) {
        lemma_configured_field_bound(keys, 13);
    }
    if later_field_unique(keys, 14) {
        lemma_configured_field_bound(keys, 14);
    }
    if later_field_unique(keys, 15) {
        lemma_configured_field_bound(keys, 15);
    }
    if later_field_unique(keys, 16) {
        lemma_configured_field_bound(keys, 16);
    }
    if later_field_unique(keys, 17) {
        lemma_configured_field_bound(keys, 17);
    }
    if later_field_unique(keys, 18) {
        lemma_configured_field_bound(keys, 18);
    }
    if later_field_unique(keys, 19) {
        lemma_configured_field_bound(keys, 19);
    }
    if later_field_unique(keys, 20) {
        lemma_configured_field_bound(keys, 20);
    }
    if later_field_unique(keys, 21) {
        lemma_configured_field_bound(keys, 21);
    }
    if later_field_unique(keys, 22) {
        lemma_configured_field_bound(keys, 22);
    }
    if later_field_unique(keys, 23) {
        lemma_configured_field_bound(keys, 23);
    }
    if later_field_unique(keys, 24) {
        lemma_configured_field_bound(keys, 24);
    }
    if later_field_unique(keys, 25) {
        lemma_configured_field_bound(keys, 25);
    }
    if later_field_unique(keys, 26) {
        lemma_configured_field_bound(keys, 26);
    }
    if later_field_unique(keys, 27) {
        lemma_configured_field_bound(keys, 27);
    }
    if later_field_unique(keys, 28) {
        lemma_configured_field_bound(keys, 28);
    }
    if later_field_unique(keys, 29) {
        lemma_configured_field_bound(keys, 29);
    }
    if later_field_unique(keys, 30) {
        lemma_configured_field_bound(keys, 30);
    }
    if later_field_unique(keys, 31) {
        lemma_configured_field_bound(keys, 31);
    }
    if later_field_unique(keys, 32) {
        lemma_configured_field_bound(keys, 32);
    }
    if later_field_unique(keys, 33) {
        lemma_configured_field_bound(keys, 33);
    }
    if later_field_unique(keys, 34) {
        lemma_configured_field_bound(keys, 34);
    }
    if later_field_unique(keys, 35) {
        lemma_configured_field_bound(keys, 35);
    }
    if later_field_unique(keys, 36) {
        lemma_configured_field_bound(keys, 36);
    }
    if later_field_unique(keys, 37) {
        lemma_configured_field_bound(keys, 37);
    }
    if later_field_unique(keys, 38) {
        lemma_configured_field_bound(keys, 38);
    }
    if later_field_unique(keys, 39) {
        lemma_configured_field_bound(keys, 39);
    }
}

/// The terminal bindings in the order in which they are installed.
pub open spec fn terminal_bindings(term: TerminalKeysConfig) -> Seq<(KeyCombo, TerminalAction)> {
    seq![
        (parse_key_combo_spec(term.kill_line@), TerminalAction::KillLine),
        (parse_key_combo_spec(term.home@), TerminalAction::Home),
        (parse_key_combo_spec(term.end@), TerminalAction::End),
        (parse_key_combo_spec(term.word_back@), TerminalAction::WordBack),
        (parse_key_combo_spec(term.word_forward@), TerminalAction::WordForward),
        (parse_key_combo_spec(term.shift_enter@), TerminalAction::ShiftEnter)
    ]
}

/// The combinations that the configured terminal shortcut strings denote,
/// in the order of the fields of [`TerminalKeysConfig`].
pub open spec fn terminal_combos(term: TerminalKeysConfig) -> Seq<KeyCombo> {
    seq![
        parse_key_combo_spec(term.kill_line@),
        parse_key_combo_spec(term.home@),
        parse_key_combo_spec(term.end@),
        parse_key_combo_spec(term.word_back@),
        parse_key_combo_spec(term.word_forward@),
        parse_key_combo_spec(term.shift_enter@)
    ]
}

/// Whether no terminal field after field `i` denotes the same combination.
pub open spec fn later_terminal_field_unique(term: TerminalKeysConfig, i: int) -> bool {
    forall|j: int|
        i < j < terminal_combos(term).len() ==> #[trigger] terminal_combos(term)[j]
            != terminal_combos(term)[i]
}

proof fn lemma_terminal_field_bound(term: TerminalKeysConfig, i: int)
    requires
        0 <= i < 6,
        later_terminal_field_unique(term, i),
    ensures
        bindings_map(terminal_bindings(term))[terminal_combos(term)[i]] == terminal_bindings(
            term,
        )[i].1,
{
    let tb = terminal_bindings(term);
    let cs = terminal_combos(term);
    assert(tb.map_values(|p: (KeyCombo, TerminalAction)| p.0) =~= cs);
    assert forall|j: int| i < j < tb.len() implies tb[j].0 != cs[i] by {
        assert(tb.map_values(|p: (KeyCombo, TerminalAction)| p.0)[j] == tb[j].0);
    }
    assert(tb.map_values(|p: (KeyCombo, TerminalAction)| p.0)[i] == tb[i].0);
    lemma_last_binding_wins(tb, cs[i], i);
}

/// Every configured terminal shortcut is bound to its own action (the
/// `kill_line` string to killing the line, and so on), unless a field after
/// it denotes the same combination.
pub proof fn lemma_terminal_shortcuts_bound(term: TerminalKeysConfig)
    ensures
        later_terminal_field_unique(term, 0) ==> bindings_map(terminal_bindings(term))[
            parse_key_combo_spec(term.kill_line@)] == TerminalAction::KillLine,
        later_terminal_field_unique(term, 1) ==> bindings_map(terminal_bindings(term))[
            parse_key_combo_spec(term.home@)] == TerminalAction::Home,
        later_terminal_field_unique(term, 2) ==> bindings_map(terminal_bindings(term))[
            parse_key_combo_spec(term.end@)] == TerminalAction::End,
        later_terminal_field_unique(term, 3) ==> bindings_map(terminal_bindings(term))[
            parse_key_combo_spec(term.word_back@)] == TerminalAction::WordBack,
        later_terminal_field_unique(term, 4) ==> bindings_map(terminal_bindings(term))[
            parse_key_combo_spec(term.word_forward@)] == TerminalAction::WordForward,
        later_terminal_field_unique(term, 5) ==> bindings_map(terminal_bindings(term))[
            parse_key_combo_spec(term.shift_enter@)] == TerminalAction::ShiftEnter,
{
    if later_terminal_field_unique(term, 0) {
        lemma_terminal_field_bound(term, 0);
    }
    if later_terminal_field_unique(term, 1) {
        lemma_terminal_field_bound(term, 1);
    }
    if later_terminal_field_unique(term, 2) {
        lemma_terminal_field_bound(term, 2);
    }
    if later_terminal_field_unique(term, 3) {
        lemma_terminal_field_bound(term, 3);
    }
    if later_terminal_field_unique(term, 4) {
        lemma_terminal_field_bound(term, 4);
    }
    if later_terminal_field_unique(term, 5) {
        lemma_terminal_field_bound(term, 5);
    }
}

/// The window-level and terminal-level shortcut tables.
pub struct Keybindings {
    pub window_map: KeyMap<Action>,
    pub terminal_map: KeyMap<TerminalAction>,
}

fn bind<A>(list: &mut Vec<(KeyCombo, A)>, s: &String, a: A)
    ensures
        final(list)@ == old(list)@.push((parse_key_combo_spec(s@), a)),
{
    let combo = parse_key_combo(s.as_str());
    list.push((combo, a));
}

impl Keybindings {
    /// The tables that the fixed bindings and the configured shortcut strings
    /// describe; when two shortcuts denote the same combination, the later
    /// one wins.
    #[verifier::spinoff_prover]
    #[verifier::rlimit(60)]
    pub fn from_config(keys: &KeysConfig) -> (kb: Self)
        ensures
            kb.window_map@ == bindings_map(window_bindings(*keys)),
            kb.terminal_map@ == bindings_map(terminal_bindings(keys.terminal)),
    {
        let mut w: Vec<(KeyCombo, Action)> = fixed_bindings();
        bind(&mut w, &keys.new_tab, Action::NewTab);
        bind(&mut w, &keys.close_pane_or_tab, Action::ClosePaneOrTab);
        bind(&mut w, &keys.vsplit, Action::VSplit);
        bind(&mut w, &keys.hsplit, Action::HSplit);
        bind(&mut w, &keys.vsplit_root, Action::VSplitRoot);
        bind(&mut w, &keys.hsplit_root, Action::HSplitRoot);
        bind(&mut w, &keys.new_window, Action::NewWindow);
        bind(&mut w, &keys.close_window, Action::CloseWindow);
        bind(&mut w, &keys.kill_window, Action::KillWindow);
        bind(&mut w, &keys.copy, Action::Copy);
        bind(&mut w, &keys.paste, Action::Paste);
        bind(&mut w, &keys.toggle_filter, Action::ToggleFilter);
        bind(&mut w, &keys.clear_scrollback, Action::ClearScrollback);
        bind(&mut w, &keys.prev_tab, Action::PrevTab);
        bind(&mut w, &keys.next_tab, Action::NextTab);
        bind(&mut w, &keys.rename_tab, Action::RenameTab);
        bind(&mut w, &keys.rename_pane, Action::RenamePane);
        bind(&mut w, &keys.detach_tab, Action::DetachTab);
        bind(&mut w, &keys.merge_window, Action::MergeWindow);
        bind(&mut w, &keys.switch_tab_1, Action::SwitchTab(0));
        bind(&mut w, &keys.switch_tab_2, Action::SwitchTab(1));
        bind(&mut w, &keys.switch_tab_3, Action::SwitchTab(2));
        bind(&mut w, &keys.switch_tab_4, Action::SwitchTab(3));
        bind(&mut w, &keys.switch_tab_5, Action::SwitchTab(4));
        bind(&mut w, &keys.switch_tab_6, Action::SwitchTab(5));
        bind(&mut w, &keys.switch_tab_7, Action::SwitchTab(6));
        bind(&mut w, &keys.switch_tab_8, Action::SwitchTab(7));
        bind(&mut w, &keys.switch_tab_9, Action::SwitchTab(8));
        bind(&mut w, &keys.navigate_up, Action::Navigate(NavDirection::Up));
        bind(&mut w, &keys.navigate_down, Action::Navigate(NavDirection::Down));
        bind(&mut w, &keys.navigate_left, Action::Navigate(NavDirection::Left));
        bind(&mut w, &keys.navigate_right, Action::Navigate(NavDirection::Right));
        bind(&mut w, &keys.swap_up, Action::SwapPane(NavDirection::Up));
        bind(&mut w, &keys.swap_down, Action::SwapPane(NavDirection::Down));
        bind(&mut w, &keys.swap_left, Action::SwapPane(NavDirection::Left));
        bind(&mut w, &keys.swap_right, Action::SwapPane(NavDirection::Right));
        bind(&mut w, &keys.resize_left, Action::Resize(SplitAxis::Horizontal, -5));
        bind(&mut w, &keys.resize_right, Action::Resize(SplitAxis::Horizontal, 5));
        bind(&mut w, &keys.resize_up, Action::Resize(SplitAxis::Vertical, -5));
        bind(&mut w, &keys.resize_down, Action::Resize(SplitAxis::Vertical, 5));
        proof {
            assert(w@ =~= window_bindings(*keys));
        }

        let term = &keys.terminal;
        let mut t: Vec<(KeyCombo, TerminalAction)> = Vec::new();
        bind(&mut t, &term.kill_line, TerminalAction::KillLine);
        bind(&mut t, &term.home, TerminalAction::Home);
        bind(&mut t, &term.end, TerminalAction::End);
        bind(&mut t, &term.word_back, TerminalAction::WordBack);
        bind(&mut t, &term.word_forward, TerminalAction::WordForward);
        bind(&mut t, &term.shift_enter, TerminalAction::ShiftEnter);
        proof {
            assert(t@ =~= terminal_bindings(keys.terminal));
        }
        Keybindings { window_map: KeyMap::from_bindings(w), terminal_map: KeyMap::from_bindings(t) }
    }
}

impl KeyCombo {
    /// The combination of a key press: the named keys that shortcuts can use,
    /// or the ASCII-lowercased first character of the text the key produces.
    pub fn from_winit(key: &LogicalKey, modifiers: &ModifierState) -> (combo: KeyCombo)
        ensures
            combo == key_combo_of(*key, *modifiers),
    {
        let key_type = match key {
            LogicalKey::Named(NamedKey::ArrowUp) => KeyType::Up,
            LogicalKey::Named(NamedKey::ArrowDown) => KeyType::Down,
            LogicalKey::Named(NamedKey::ArrowLeft) => KeyType::Left,
            LogicalKey::Named(NamedKey::ArrowRight) => KeyType::Right,
            LogicalKey::Named(NamedKey::Backspace) => KeyType::Backspace,
            LogicalKey::Named(NamedKey::Enter) => KeyType::Enter,
            LogicalKey::Named(NamedKey::F1) => KeyType::F1,
            LogicalKey::Named(NamedKey::F2) => KeyType::F2,
            LogicalKey::Named(NamedKey::F11) => KeyType::F11,
            LogicalKey::Character(s) => {
                let c = crate::input::first_char(s);
                KeyType::Char(ascii_lower_char(c))
            },
            _ => KeyType::Char('\0'),
        };
        KeyCombo {
            cmd: modifiers.super_key,
            ctrl: modifiers.control,
            option: modifiers.alt,
            shift: modifiers.shift,
            key: key_type,
        }
    }
}

/// The combination a key press is looked up under.
pub open spec fn key_combo_of(key: LogicalKey, m: ModifierState) -> KeyCombo {
    KeyCombo {
        cmd: m.super_key,
        ctrl: m.control,
        option: m.alt,
        shift: m.shift,
        key: match key {
            LogicalKey::Named(NamedKey::ArrowUp) => KeyType::Up,
            LogicalKey::Named(NamedKey::ArrowDown) => KeyType::Down,
            LogicalKey::Named(NamedKey::ArrowLeft) => KeyType::Left,
            LogicalKey::Named(NamedKey::ArrowRight) => KeyType::Right,
            LogicalKey::Named(NamedKey::Backspace) => KeyType::Backspace,
            LogicalKey::Named(NamedKey::Enter) => KeyType::Enter,
            LogicalKey::Named(NamedKey::F1) => KeyType::F1,
            LogicalKey::Named(NamedKey::F2) => KeyType::F2,
            LogicalKey::Named(NamedKey::F11) => KeyType::F11,
            LogicalKey::Character(s) => KeyType::Char(ascii_lower(crate::input::first_char_spec(s@))),
            _ => KeyType::Char('\0'),
        },
    }
}

/// The modifier words of a shortcut string for the held modifiers, each
/// followed by `+`, in the order `cmd`, `ctrl`, `alt`, `shift`.
pub open spec fn modifier_prefix(m: ModifierState) -> Seq<char> {
    (if m.super_key {
        seq!['c', 'm', 'd', '+']
    } else {
        Seq::empty()
    }) + (if m.control {
        seq!['c', 't', 'r', 'l', '+']
    } else {
        Seq::empty()
    }) + (if m.alt {
        seq!['a', 'l', 't', '+']
    } else {
        Seq::empty()
    }) + (if m.shift {
        seq!['s', 'h', 'i', 'f', 't', '+']
    } else {
        Seq::empty()
    })
}

/// The word that names `key` in a shortcut string: the arrow, Backspace,
/// Enter, F1, F2 and F11 keys by name, a key typing one printable ASCII character (other than
/// `+`) by that character.
pub open spec fn names_key(key: LogicalKey, word: Seq<char>) -> bool {
    match key {
        LogicalKey::Named(NamedKey::ArrowUp) => word == seq!['u', 'p'],
        LogicalKey::Named(NamedKey::ArrowDown) => word == seq!['d', 'o', 'w', 'n'],
        LogicalKey::Named(NamedKey::ArrowLeft) => word == seq!['l', 'e', 'f', 't'],
        LogicalKey::Named(NamedKey::ArrowRight) => word == seq!['r', 'i', 'g', 'h', 't'],
        LogicalKey::Named(NamedKey::Backspace) => word == seq![
            'b',
            'a',
            'c',
            'k',
            's',
            'p',
            'a',
            'c',
            'e',
        ],
        LogicalKey::Named(NamedKey::Enter) => word == seq!['e', 'n', 't', 'e', 'r'],
        LogicalKey::Named(NamedKey::F1) => word == seq!['f', '1'],
        LogicalKey::Named(NamedKey::F2) => word == seq!['f', '2'],
        LogicalKey::Named(NamedKey::F11) => word == seq!['f', '1', '1'],
        LogicalKey::Character(s) => s@ == word && word.len() == 1 && 0x20 < (word[0] as u32) && (
        word[0] as u32) < 0x7f && word[0] != '+',
        _ => false,
    }
}

/// A word of lower-case ASCII letters and digits is its own trimmed,
/// lower-cased form.
proof fn lemma_plain_word(w: Seq<char>)
    requires
        w.len() > 0,
        forall|i: int|
            0 <= i < w.len() ==> ('a' <= #[trigger] w[i] && w[i] <= 'z') || ('0' <= w[i] && w[i]
                <= '9'),
    ensures
        lower_seq(trim(w)) == w,
{
    assert(!is_white_space(w[0]));
    assert(trim_start(w) == w);
    assert(!is_white_space(w.last()));
    assert(trim_end(w) == w);
    assert(lower_seq(w) =~= w);
}

/// A shortcut string that starts with the modifier word `w` denotes what the
/// rest denotes, with that modifier added.
proof fn lemma_parse_after_word(w: Seq<char>, rest: Seq<char>)
    requires
        w == seq!['c', 'm', 'd'] || w == seq!['c', 't', 'r', 'l'] || w == seq!['a', 'l', 't'] || w
            == seq!['s', 'h', 'i', 'f', 't'],
    ensures
        ({
            let c = parse_key_combo_spec(rest);
            parse_key_combo_spec(w + seq!['+'] + rest) == KeyCombo {
                cmd: c.cmd || w == seq!['c', 'm', 'd'],
                ctrl: c.ctrl || w == seq!['c', 't', 'r', 'l'],
                option: c.option || w == seq!['a', 'l', 't'],
                shift: c.shift || w == seq!['s', 'h', 'i', 'f', 't'],
                key: c.key,
            }
        }),
{
    reveal(parse_key_combo_spec);
    assert(!w.contains('+')) by {
        if w.contains('+') {
            let i = choose|i: int| 0 <= i < w.len() && w[i] == '+';
        }
    }
    lemma_split_concat(w, rest, '+');
    lemma_split_without_sep(w, '+');
    lemma_split_nonempty(rest, '+');
    lemma_plain_word(w);
    let r = split_on(rest, '+');
    let p = split_on(w + seq!['+'] + rest, '+');
    assert(p =~= seq![w] + r);
    let n = r.len();
    assert(p.len() == n + 1);
    assert(p.last() == r.last());
    assert forall|i: int| 0 <= i < n - 1 implies #[trigger] p[i + 1] == r[i] by {}
    assert(names_cmd(p[0]) == (w == seq!['c', 'm', 'd']));
    assert(names_ctrl(p[0]) == (w == seq!['c', 't', 'r', 'l']));
    assert(names_option(p[0]) == (w == seq!['a', 'l', 't']));
    assert(names_shift(p[0]) == (w == seq!['s', 'h', 'i', 'f', 't']));
    if exists|i: int| 0 <= i < n - 1 && #[trigger] names_cmd(r[i]) {
        let i = choose|i: int| 0 <= i < n - 1 && #[trigger] names_cmd(r[i]);
        assert(names_cmd(p[i + 1]));
    }
    if exists|i: int| 0 <= i < n && #[trigger] names_cmd(p[i]) {
        let i = choose|i: int| 0 <= i < n && #[trigger] names_cmd(p[i]);
        if i > 0 {
            assert(names_cmd(r[i - 1]));
        }
    }
    if exists|i: int| 0 <= i < n - 1 && #[trigger] names_ctrl(r[i]) {
        let i = choose|i: int| 0 <= i < n - 1 && #[trigger] names_ctrl(r[i]);
        assert(names_ctrl(p[i + 1]));
    }
    if exists|i: int| 0 <= i < n && #[trigger] names_ctrl(p[i]) {
        let i = choose|i: int| 0 <= i < n && #[trigger] names_ctrl(p[i]);
        if i > 0 {
            assert(names_ctrl(r[i - 1]));
        }
    }
    if exists|i: int| 0 <= i < n - 1 && #[trigger] names_option(r[i]) {
        let i = choose|i: int| 0 <= i < n - 1 && #[trigger] names_option(r[i]);
        assert(names_option(p[i + 1]));
    }
    if exists|i: int| 0 <= i < n && #[trigger] names_option(p[i]) {
        let i = choose|i: int| 0 <= i < n && #[trigger] names_option(p[i]);
        if i > 0 {
            assert(names_option(r[i - 1]));
        }
    }
    if exists|i: int| 0 <= i < n - 1 && #[trigger] names_shift(r[i]) {
        let i = choose|i: int| 0 <= i < n - 1 && #[trigger] names_shift(r[i]);
        assert(names_shift(p[i + 1]));
    }
    if exists|i: int| 0 <= i < n && #[trigger] names_shift(p[i]) {
        let i = choose|i: int| 0 <= i < n && #[trigger] names_shift(p[i]);
        if i > 0 {
            assert(names_shift(r[i - 1]));
        }
    }
}

/// The shortcut string of a key alone denotes that key with no modifier.
proof fn lemma_parse_key_word(key: LogicalKey, word: Seq<char>)
    requires
        names_key(key, word),
    ensures
        parse_key_combo_spec(word) == key_combo_of(
            key,
            ModifierState { super_key: false, control: false, alt: false, shift: false },
        ),
{
    reveal(parse_key_combo_spec);
    assert(!word.contains('+')) by {
        if word.contains('+') {
            let i = choose|i: int| 0 <= i < word.len() && word[i] == '+';
        }
    }
    lemma_split_without_sep(word, '+');
    let parts = split_on(word, '+');
    assert(parts.len() == 1);
    assert(parts[0] == word);
    if key is Character {
        let c = word[0];
        assert(!is_white_space(c));
        assert(trim_start(word) == word);
        assert(word.last() == c);
        assert(trim_end(word) == word);
        let l = lower_seq(trim(word));
        assert(l =~= seq![ascii_lower(c)]);
        if 'A' <= c && c <= 'Z' {
            assert('a' <= ascii_lower(c) && ascii_lower(c) <= 'z');
        }
        assert((l[0] as u32) < 0x80);
        assert(key_of_part(word) == KeyType::Char(ascii_lower(c)));
        assert(crate::input::first_char_spec(key->Character_0@) == c);
    } else {
        lemma_plain_word(word);
    }
}

/// The combination `c` with the modifier that word `w` names added.
pub open spec fn with_modifier(c: KeyCombo, w: Seq<char>) -> KeyCombo {
    KeyCombo {
        cmd: c.cmd || w == seq!['c', 'm', 'd'],
        ctrl: c.ctrl || w == seq!['c', 't', 'r', 'l'],
        option: c.option || w == seq!['a', 'l', 't'],
        shift: c.shift || w == seq!['s', 'h', 'i', 'f', 't'],
        key: c.key,
    }
}

/// The modifier word `w` followed by `+`, when `present`.
pub open spec fn optional_word(present: bool, w: Seq<char>) -> Seq<char> {
    if present {
        w + seq!['+']
    } else {
        Seq::empty()
    }
}

proof fn lemma_parse_optional_word(present: bool, w: Seq<char>, rest: Seq<char>)
    requires
        w == seq!['c', 'm', 'd'] || w == seq!['c', 't', 'r', 'l'] || w == seq!['a', 'l', 't'] || w
            == seq!['s', 'h', 'i', 'f', 't'],
    ensures
        parse_key_combo_spec(optional_word(present, w) + rest) == if present {
            with_modifier(parse_key_combo_spec(rest), w)
        } else {
            parse_key_combo_spec(rest)
        },
{
    if present {
        assert(optional_word(present, w) + rest =~= w + seq!['+'] + rest);
        lemma_parse_after_word(w, rest);
    } else {
        assert(optional_word(present, w) + rest =~= rest);
    }
}

/// A shortcut written as the held modifiers followed by the word of the key
/// fires on that key press: the string denotes the combination that pressing
/// the key with those modifiers gives.
pub proof fn lemma_shortcut_matches_key_press(m: ModifierState, key: LogicalKey, word: Seq<char>)
    requires
        names_key(key, word),
    ensures
        parse_key_combo_spec(modifier_prefix(m) + word) == key_combo_of(key, m),
{
    let none = ModifierState { super_key: false, control: false, alt: false, shift: false };
    lemma_parse_key_word(key, word);
    lemma_parse_with_modifiers(m, word, key_combo_of(key, none));
    assert(with_modifiers(key_combo_of(key, none), m) == key_combo_of(key, m));
}

/// Modifier words, each followed by `+`, as they open a shortcut string.
pub open spec fn joined_words(words: Seq<Seq<char>>) -> Seq<char>
    decreases words.len(),
{
    if words.len() == 0 {
        Seq::empty()
    } else {
        words[0] + seq!['+'] + joined_words(words.drop_first())
    }
}

/// Whether part `p` names modifier `k` (0: cmd, 1: ctrl, 2: option,
/// 3: shift).
pub open spec fn names_modifier(p: Seq<char>, k: int) -> bool {
    if k == 0 {
        names_cmd(p)
    } else if k == 1 {
        names_ctrl(p)
    } else if k == 2 {
        names_option(p)
    } else {
        names_shift(p)
    }
}

proof fn lemma_split_joined(words: Seq<Seq<char>>, rest: Seq<char>)
    requires
        forall|i: int| 0 <= i < words.len() ==> !(#[trigger] words[i]).contains('+'),
    ensures
        split_on(joined_words(words) + rest, '+') == words + split_on(rest, '+'),
    decreases words.len(),
{
    if words.len() == 0 {
        assert(joined_words(words) + rest =~= rest);
        assert(words + split_on(rest, '+') =~= split_on(rest, '+'));
    } else {
        let w = words[0];
        let tail = words.drop_first();
        assert forall|i: int| 0 <= i < tail.len() implies !(#[trigger] tail[i]).contains('+') by {
            assert(tail[i] == words[i + 1]);
        }
        lemma_split_joined(tail, rest);
        let after = joined_words(tail) + rest;
        assert(joined_words(words) + rest =~= w + seq!['+'] + after);
        lemma_split_concat(w, after, '+');
        lemma_split_without_sep(w, '+');
        assert(seq![w] + (tail + split_on(rest, '+')) =~= words + split_on(rest, '+'));
    }
}

/// Part lists that begin with the same modifier words, in any order and any
/// number of times, and end alike, name the same modifiers.
proof fn lemma_same_words_same_modifiers(
    a: Seq<Seq<char>>,
    b: Seq<Seq<char>>,
    r: Seq<Seq<char>>,
    k: int,
)
    requires
        r.len() >= 1,
        forall|w: Seq<char>| a.contains(w) <==> b.contains(w),
    ensures
        (exists|i: int| 0 <= i < (a + r).len() - 1 && #[trigger] names_modifier((a + r)[i], k)) == (
        exists|i: int| 0 <= i < (b + r).len() - 1 && #[trigger] names_modifier((b + r)[i], k)),
{
    if exists|i: int| 0 <= i < (a + r).len() - 1 && #[trigger] names_modifier((a + r)[i], k) {
        let i = choose|i: int| 0 <= i < (a + r).len() - 1 && #[trigger] names_modifier((a + r)[i], k);
        if i < a.len() {
            let w = a[i];
            assert(a.contains(w));
            let j = choose|j: int| 0 <= j < b.len() && b[j] == w;
            assert((b + r)[j] == w);
            assert(names_modifier((b + r)[j], k));
        } else {
            let j = i - a.len() + b.len();
            assert((b + r)[j] == (a + r)[i]);
            assert(names_modifier((b + r)[j], k));
        }
    }
    if exists|i: int| 0 <= i < (b + r).len() - 1 && #[trigger] names_modifier((b + r)[i], k) {
        let i = choose|i: int| 0 <= i < (b + r).len() - 1 && #[trigger] names_modifier((b + r)[i], k);
        if i < b.len() {
            let w = b[i];
            assert(b.contains(w));
            let j = choose|j: int| 0 <= j < a.len() && a[j] == w;
            assert((a + r)[j] == w);
            assert(names_modifier((a + r)[j], k));
        } else {
            let j = i - b.len() + a.len();
            assert((a + r)[j] == (b + r)[i]);
            assert(names_modifier((a + r)[j], k));
        }
    }
}

/// The modifiers of a parsed part list, one by one.
proof fn lemma_parse_parts(s: Seq<char>)
    ensures
        ({
            let parts = split_on(s, '+');
            let c = parse_key_combo_spec(s);
            &&& parts.len() >= 1
            &&& c.key == key_of_part(parts.last())
            &&& c.cmd == exists|i: int| 0 <= i < parts.len() - 1 && #[trigger] names_modifier(parts[i], 0)
            &&& c.ctrl == exists|i: int| 0 <= i < parts.len() - 1 && #[trigger] names_modifier(parts[i], 1)
            &&& c.option == exists|i: int|
                0 <= i < parts.len() - 1 && #[trigger] names_modifier(parts[i], 2)
            &&& c.shift == exists|i: int|
                0 <= i < parts.len() - 1 && #[trigger] names_modifier(parts[i], 3)
        }),
{
    reveal(parse_key_combo_spec);
    lemma_split_nonempty(s, '+');
    let parts = split_on(s, '+');
    let n = parts.len();
    assert((exists|i: int| 0 <= i < n - 1 && #[trigger] names_cmd(parts[i])) == (exists|i: int|
        0 <= i < n - 1 && #[trigger] names_modifier(parts[i], 0))) by {
        if exists|i: int| 0 <= i < n - 1 && #[trigger] names_modifier(parts[i], 0) {
            let i = choose|i: int| 0 <= i < n - 1 && #[trigger] names_modifier(parts[i], 0);
            assert(names_cmd(parts[i]));
        }
        if exists|i: int| 0 <= i < n - 1 && #[trigger] names_cmd(parts[i]) {
            let i = choose|i: int| 0 <= i < n - 1 && #[trigger] names_cmd(parts[i]);
            assert(names_modifier(parts[i], 0));
        }
    }
    assert((exists|i: int| 0 <= i < n - 1 && #[trigger] names_ctrl(parts[i])) == (exists|i: int|
        0 <= i < n - 1 && #[trigger] names_modifier(parts[i], 1))) by {
        if exists|i: int| 0 <= i < n - 1 && #[trigger] names_modifier(parts[i], 1) {
            let i = choose|i: int| 0 <= i < n - 1 && #[trigger] names_modifier(parts[i], 1);
            assert(names_ctrl(parts[i]));
        }
        if exists|i: int| 0 <= i < n - 1 && #[trigger] names_ctrl(parts[i]) {
            let i = choose|i: int| 0 <= i < n - 1 && #[trigger] names_ctrl(parts[i]);
            assert(names_modifier(parts[i], 1));
        }
    }
    assert((exists|i: int| 0 <= i < n - 1 && #[trigger] names_option(parts[i])) == (exists|i: int|
        0 <= i < n - 1 && #[trigger] names_modifier(parts[i], 2))) by {
        if exists|i: int| 0 <= i < n - 1 && #[trigger] names_modifier(parts[i], 2) {
            let i = choose|i: int| 0 <= i < n - 1 && #[trigger] names_modifier(parts[i], 2);
            assert(names_option(parts[i]));
        }
        if exists|i: int| 0 <= i < n - 1 && #[trigger] names_option(parts[i]) {
            let i = choose|i: int| 0 <= i < n - 1 && #[trigger] names_option(parts[i]);
            assert(names_modifier(parts[i], 2));
        }
    }
    assert((exists|i: int| 0 <= i < n - 1 && #[trigger] names_shift(parts[i])) == (exists|i: int|
        0 <= i < n - 1 && #[trigger] names_modifier(parts[i], 3))) by {
        if exists|i: int| 0 <= i < n - 1 && #[trigger] names_modifier(parts[i], 3) {
            let i = choose|i: int| 0 <= i < n - 1 && #[trigger] names_modifier(parts[i], 3);
            assert(names_shift(parts[i]));
        }
        if exists|i: int| 0 <= i < n - 1 && #[trigger] names_shift(parts[i]) {
            let i = choose|i: int| 0 <= i < n - 1 && #[trigger] names_shift(parts[i]);
            assert(names_modifier(parts[i], 3));
        }
    }
}

/// Shortcut strings whose modifier parts are the same words, written in any
/// order and any number of times, denote the same combination.
pub proof fn lemma_parse_modifier_words(a: Seq<Seq<char>>, b: Seq<Seq<char>>, rest: Seq<char>)
    requires
        forall|i: int| 0 <= i < a.len() ==> !(#[trigger] a[i]).contains('+'),
        forall|i: int| 0 <= i < b.len() ==> !(#[trigger] b[i]).contains('+'),
        forall|w: Seq<char>| a.contains(w) <==> b.contains(w),
    ensures
        parse_key_combo_spec(joined_words(a) + rest) == parse_key_combo_spec(joined_words(b) + rest),
{
    lemma_split_joined(a, rest);
    lemma_split_joined(b, rest);
    lemma_split_nonempty(rest, '+');
    let r = split_on(rest, '+');
    lemma_same_words_same_modifiers(a, b, r, 0);
    lemma_same_words_same_modifiers(a, b, r, 1);
    lemma_same_words_same_modifiers(a, b, r, 2);
    lemma_same_words_same_modifiers(a, b, r, 3);
    lemma_parse_parts(joined_words(a) + rest);
    lemma_parse_parts(joined_words(b) + rest);
    assert((a + r).last() == r.last());
    assert((b + r).last() == r.last());
}

/// The modifier words of `m` in the order cmd, ctrl, alt, shift.
pub open spec fn modifier_words(m: ModifierState) -> Seq<Seq<char>> {
    (if m.super_key {
        seq![seq!['c', 'm', 'd']]
    } else {
        Seq::empty()
    }) + (if m.control {
        seq![seq!['c', 't', 'r', 'l']]
    } else {
        Seq::empty()
    }) + (if m.alt {
        seq![seq!['a', 'l', 't']]
    } else {
        Seq::empty()
    }) + (if m.shift {
        seq![seq!['s', 'h', 'i', 'f', 't']]
    } else {
        Seq::empty()
    })
}

/// Whether `words` names exactly the held modifiers of `m`, as `cmd`,
/// `ctrl`, `alt` and `shift`, in any order.
pub open spec fn names_held_modifiers(words: Seq<Seq<char>>, m: ModifierState) -> bool {
    &&& forall|i: int|
        0 <= i < words.len() ==> #[trigger] words[i] == seq!['c', 'm', 'd'] || words[i] == seq![
            'c',
            't',
            'r',
            'l',
        ] || words[i] == seq!['a', 'l', 't'] || words[i] == seq!['s', 'h', 'i', 'f', 't']
    &&& words.contains(seq!['c', 'm', 'd']) == m.super_key
    &&& words.contains(seq!['c', 't', 'r', 'l']) == m.control
    &&& words.contains(seq!['a', 'l', 't']) == m.alt
    &&& words.contains(seq!['s', 'h', 'i', 'f', 't']) == m.shift
}

proof fn lemma_modifier_words_joined(m: ModifierState)
    ensures
        joined_words(modifier_words(m)) == modifier_prefix(m),
        names_held_modifiers(modifier_words(m), m),
{
    let c = seq!['c', 'm', 'd'];
    let t = seq!['c', 't', 'r', 'l'];
    let a = seq!['a', 'l', 't'];
    let sh = seq!['s', 'h', 'i', 'f', 't'];
    let ws = modifier_words(m);
    reveal_with_fuel(joined_words, 5);
    assert(c != t && c != a && c != sh && t != a && t != sh && a != sh) by {
        assert(c.len() != t.len());
        assert(c[0] != a[0] && c[0] != sh[0] && t[0] != a[0] && t[0] != sh[0] && a[0] != sh[0]);
        assert(c.len() != sh.len());
    }
    assert(ws.contains(c) == m.super_key) by {
        if m.super_key {
            assert(ws[0] == c);
        }
    }
    assert(ws.contains(t) == m.control) by {
        if m.control {
            let i: int = if m.super_key { 1 } else { 0 };
            assert(ws[i] == t);
        }
    }
    assert(ws.contains(a) == m.alt) by {
        if m.alt {
            let i: int = (if m.super_key { 1int } else { 0 }) + (if m.control { 1int } else { 0 });
            assert(ws[i] == a);
        }
    }
    assert(ws.contains(sh) == m.shift) by {
        if m.shift {
            let i: int = (if m.super_key { 1int } else { 0 }) + (if m.control { 1int } else { 0 }) + (
            if m.alt { 1int } else { 0 });
            assert(ws[i] == sh);
        }
    }
    assert(joined_words(ws) =~= modifier_prefix(m));
}

/// A shortcut written as the held modifiers, as `cmd`, `ctrl`, `alt` and
/// `shift` in any order, followed by the word of the key fires on that key
/// press.
pub proof fn lemma_any_order_shortcut_matches_key_press(
    m: ModifierState,
    words: Seq<Seq<char>>,
    key: LogicalKey,
    word: Seq<char>,
)
    requires
        names_held_modifiers(words, m),
        names_key(key, word),
    ensures
        parse_key_combo_spec(joined_words(words) + word) == key_combo_of(key, m),
{
    let canon = modifier_words(m);
    lemma_modifier_words_joined(m);
    assert forall|i: int| 0 <= i < words.len() implies !(#[trigger] words[i]).contains('+') by {
        if words[i].contains('+') {
            let j = choose|j: int| 0 <= j < words[i].len() && words[i][j] == '+';
        }
    }
    assert forall|i: int| 0 <= i < canon.len() implies !(#[trigger] canon[i]).contains('+') by {
        if canon[i].contains('+') {
            let j = choose|j: int| 0 <= j < canon[i].len() && canon[i][j] == '+';
        }
    }
    assert forall|w: Seq<char>| words.contains(w) <==> canon.contains(w) by {
        if words.contains(w) {
            let i = choose|i: int| 0 <= i < words.len() && words[i] == w;
            assert(words[i] == w);
        }
        if canon.contains(w) {
            let i = choose|i: int| 0 <= i < canon.len() && canon[i] == w;
            assert(canon[i] == w);
        }
    }
    lemma_parse_modifier_words(words, canon, word);
    lemma_shortcut_matches_key_press(m, key, word);
}

/// The combination `c` with the modifiers of `m` added.
pub open spec fn with_modifiers(c: KeyCombo, m: ModifierState) -> KeyCombo {
    KeyCombo {
        cmd: c.cmd || m.super_key,
        ctrl: c.ctrl || m.control,
        option: c.option || m.alt,
        shift: c.shift || m.shift,
        key: c.key,
    }
}

proof fn lemma_prefix_layout(m: ModifierState, word: Seq<char>)
    ensures
        modifier_prefix(m) + word == optional_word(m.super_key, seq!['c', 'm', 'd']) + (
        optional_word(m.control, seq!['c', 't', 'r', 'l']) + (optional_word(m.alt, seq!['a', 'l', 't'])
            + (optional_word(m.shift, seq!['s', 'h', 'i', 'f', 't']) + word))),
{
    assert(seq!['c', 'm', 'd'] + seq!['+'] =~= seq!['c', 'm', 'd', '+']);
    assert(seq!['c', 't', 'r', 'l'] + seq!['+'] =~= seq!['c', 't', 'r', 'l', '+']);
    assert(seq!['a', 'l', 't'] + seq!['+'] =~= seq!['a', 'l', 't', '+']);
    assert(seq!['s', 'h', 'i', 'f', 't'] + seq!['+'] =~= seq!['s', 'h', 'i', 'f', 't', '+']);
    assert(modifier_prefix(m) + word =~= optional_word(m.super_key, seq!['c', 'm', 'd']) + (
    optional_word(m.control, seq!['c', 't', 'r', 'l']) + (optional_word(m.alt, seq!['a', 'l', 't'])
        + (optional_word(m.shift, seq!['s', 'h', 'i', 'f', 't']) + word))));
}

/// Writing the modifier words of `m` before a key word adds the modifiers of
/// `m` to what the key word alone denotes, `c`.
proof fn lemma_parse_with_modifiers(m: ModifierState, word: Seq<char>, c: KeyCombo)
    requires
        parse_key_combo_spec(word) == c,
    ensures
        parse_key_combo_spec(modifier_prefix(m) + word) == with_modifiers(c, m),
{
    let s1 = optional_word(m.shift, seq!['s', 'h', 'i', 'f', 't']) + word;
    let s2 = optional_word(m.alt, seq!['a', 'l', 't']) + s1;
    let s3 = optional_word(m.control, seq!['c', 't', 'r', 'l']) + s2;
    let s4 = optional_word(m.super_key, seq!['c', 'm', 'd']) + s3;
    lemma_parse_optional_word(m.shift, seq!['s', 'h', 'i', 'f', 't'], word);
    lemma_parse_optional_word(m.alt, seq!['a', 'l', 't'], s1);
    lemma_parse_optional_word(m.control, seq!['c', 't', 'r', 'l'], s2);
    lemma_parse_optional_word(m.super_key, seq!['c', 'm', 'd'], s3);
    lemma_prefix_layout(m, word);
}

} // verus!
