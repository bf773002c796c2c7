//! The text and timing decisions of the renderer: cursor blinking, the clock
//! of the global status bar, and the labels of the status bar, the tab bar
//! and the filter overlay.
use vstd::prelude::*;
use vstd::string::StringExecFns;
use vstd::arithmetic::div_mod::{lemma_fundamental_div_mod, lemma_fundamental_div_mod_converse};

use crate::text::{chars_of, decimal, push_decimal, string_from_chars};

verus! {

/// Horizontal padding inside a pane, in pixels.
pub const PANE_H_PADDING: u32 = 10;

/// Number of colours in the tab colour palette.
pub const TAB_COLOR_COUNT: usize = 6;

/// Longest tab title shown in full, in characters.
pub const MAX_TAB_TITLE_CHARS: usize = 25;

/// Cursor blink state: frames since the cursor last moved, and the
/// cursor-move epoch of the focused pane seen last.
pub struct CursorBlink {
    pub blink_counter: u32,
    pub last_cursor_epoch: u32,
    /// Length of one on/off period in frames; below 2 the cursor does not blink.
    pub cursor_blink_frames: u32,
}

/// The counter after a frame in which the focused pane reports `epoch`.
pub open spec fn blink_counter_after(b: CursorBlink, epoch: Option<u32>) -> u32 {
    let base = match epoch {
        Some(e) => if e != b.last_cursor_epoch {
            0
        } else {
            b.blink_counter
        },
        None => b.blink_counter,
    };
    if base == u32::MAX {
        0
    } else {
        (base + 1) as u32
    }
}

/// Whether the cursor shows at `counter`, and whether it just toggled.
pub open spec fn blink_phase(counter: u32, frames: u32) -> (bool, bool) {
    if frames >= 2 {
        let half = frames / 2;
        (counter % frames < half, counter % half == 0)
    } else {
        (true, false)
    }
}

/// With a blink period of `frames >= 2` frames, the cursor shows during
/// the first half of every period and hides during the rest: at the counter
/// value `q * frames + r` (`r` within the period) it shows exactly when
/// `r < frames / 2`.
pub proof fn lemma_blink_first_half_shown(counter: u32, frames: u32, q: int, r: int)
    requires
        frames >= 2,
        0 <= r < frames,
        counter == q * frames + r,
    ensures
        blink_phase(counter, frames).0 == (r < frames / 2),
{
    lemma_fundamental_div_mod_converse(counter as int, frames as int, q, r);
}

/// With an even blink period, a toggle is reported at a counter value
/// exactly when the cursor's visibility differs from the one at the value
/// before; the toggles fall every half period.
pub proof fn lemma_blink_toggles_when_visibility_changes(counter: u32, frames: u32)
    requires
        frames >= 2,
        frames % 2 == 0,
        counter >= 1,
    ensures
        blink_phase(counter, frames).1 == (blink_phase(counter, frames).0 != blink_phase(
            (counter - 1) as u32,
            frames,
        ).0),
        blink_phase(counter, frames).1 == (counter % (frames / 2) == 0),
{
    let f = frames as int;
    let h = f / 2;
    let c = counter as int;
    let q = c / f;
    let r = c % f;
    lemma_fundamental_div_mod(c, f);
    assert(q * f == (2 * q) * h) by (nonlinear_arith)
        requires
            f == 2 * h,
    ;
    if r < h {
        lemma_fundamental_div_mod_converse(c, h, 2 * q, r);
    } else {
        assert((2 * q) * h + h == (2 * q + 1) * h) by (nonlinear_arith);
        lemma_fundamental_div_mod_converse(c, h, 2 * q + 1, r - h);
    }
    if r > 0 {
        lemma_fundamental_div_mod_converse(c - 1, f, q, r - 1);
    } else {
        assert(q >= 1) by (nonlinear_arith)
            requires
                c == q * f + r,
                r == 0,
                c >= 1,
                f >= 2,
        ;
        assert(q * f - 1 == (q - 1) * f + (f - 1)) by (nonlinear_arith);
        lemma_fundamental_div_mod_converse(c - 1, f, q - 1, f - 1);
    }
}

impl CursorBlink {
    pub fn new(cursor_blink_frames: u32) -> (b: Self)
        ensures
            b.blink_counter == 0,
            b.last_cursor_epoch == 0,
            b.cursor_blink_frames == cursor_blink_frames,
    {
        CursorBlink { blink_counter: 0, last_cursor_epoch: 0, cursor_blink_frames }
    }

    /// Advances one frame. A cursor move in the focused pane (a new epoch)
    /// restarts the blink period. Returns whether the cursor is shown and
    /// whether its visibility just changed.
    pub fn advance(&mut self, focused_epoch: Option<u32>) -> (r: (bool, bool))
        ensures
            final(self).blink_counter == blink_counter_after(*old(self), focused_epoch),
            final(self).last_cursor_epoch == match focused_epoch {
                Some(e) => e,
                None => old(self).last_cursor_epoch,
            },
            final(self).cursor_blink_frames == old(self).cursor_blink_frames,
            r == blink_phase(final(self).blink_counter, old(self).cursor_blink_frames),
    {
        if let Some(epoch) = focused_epoch {
            if epoch != self.last_cursor_epoch {
                self.last_cursor_epoch = epoch;
                self.blink_counter = 0;
            }
        }
        self.blink_counter = self.blink_counter.wrapping_add(1);
        if self.cursor_blink_frames >= 2 {
            let half = self.cursor_blink_frames / 2;
            (self.blink_counter % self.cursor_blink_frames < half, (self.blink_counter % half) == 0)
        } else {
            (true, false)
        }
    }
}

/// `n` in decimal, left-padded with zeros to two digits (`{:02}`).
pub open spec fn two_digits(n: nat) -> Seq<char> {
    if n < 10 {
        seq!['0'] + decimal(n)
    } else {
        decimal(n)
    }
}

/// The clock of the global status bar, `HH:MM`.
pub open spec fn clock_text_spec(hour: u32, minute: u32) -> Seq<char> {
    two_digits(hour as nat) + seq![':'] + two_digits(minute as nat)
}

fn push_two_digits(out: &mut Vec<char>, n: u32)
    ensures
        final(out)@ == old(out)@ + two_digits(n as nat),
{
    if n < 10 {
        out.push('0');
    }
    push_decimal(out, n as u64);
    proof {
        if n < 10 {
            assert(out@ =~= old(out)@ + two_digits(n as nat));
        }
    }
}

/// `format!("{:02}:{:02}", hour, minute)`.
pub fn clock_text(hour: u32, minute: u32) -> (s: String)
    ensures
        s@ == clock_text_spec(hour, minute),
{
    let mut v: Vec<char> = Vec::new();
    push_two_digits(&mut v, hour);
    v.push(':');
    push_two_digits(&mut v, minute);
    proof {
        assert(v@ =~= clock_text_spec(hour, minute));
    }
    string_from_chars(&v)
}

/// The minute of the clock, kept so the status bar is redrawn only when the
/// minute changes.
pub struct ClockCache {
    pub last_minute: u32,
    pub text: String,
}

impl ClockCache {
    pub fn new() -> (c: Self)
        ensures
            c.last_minute == u32::MAX,
            c.text@ == Seq::<char>::empty(),
    {
        ClockCache { last_minute: u32::MAX, text: String::new() }
    }

    /// Records the time `secs` seconds after the epoch, whose local hour and
    /// minute are given; returns whether the minute changed (the clock text is
    /// then refreshed).
    pub fn update(&mut self, secs: u64, local_hour: u32, local_minute: u32) -> (changed: bool)
        ensures
            changed == ((secs / 60) as u32 != old(self).last_minute),
            final(self).last_minute == (secs / 60) as u32,
            changed ==> final(self).text@ == clock_text_spec(local_hour, local_minute),
            !changed ==> final(self).text@ == old(self).text@,
    {
        let current_minute = (secs / 60) as u32;
        if current_minute != self.last_minute {
            self.last_minute = current_minute;
            self.text = clock_text(local_hour, local_minute);
            true
        } else {
            false
        }
    }
}

/// What a frame needs to know of a pane to decide whether to redraw.
#[derive(Clone, Copy, Debug, PartialEq, Eq, Structural)]
pub struct PaneFrame {
    /// The pane's shell has started.
    pub ready: bool,
    /// Milliseconds since the terminal began a synchronized update, while
    /// one is in progress and its start is known.
    pub sync_elapsed_ms: Option<u64>,
    /// The terminal changed since the last frame drawn.
    pub dirty: bool,
}

/// Whether the pane's synchronized update is still in progress: it began
/// less than 100 ms ago. Its dirty flag is then left for a later frame, and
/// frames go on being drawn until the update is over.
pub open spec fn sync_deferred(p: PaneFrame) -> bool {
    p.sync_elapsed_ms matches Some(ms) && ms < 100
}

/// Whether a frame is drawn: it is skipped only when every pane is ready,
/// no pane is dirty (a pane in a synchronized update aside), no pane is in
/// a synchronized update, the cursor blink and the clock's minute did not
/// change and no filter overlay is shown.
pub open spec fn frame_due_spec(
    panes: Seq<PaneFrame>,
    blink_changed: bool,
    minute_changed: bool,
    has_filter: bool,
) -> bool {
    let all_ready = forall|i: int| 0 <= i < panes.len() ==> (#[trigger] panes[i]).ready;
    let any_dirty = exists|i: int|
        0 <= i < panes.len() && !sync_deferred(#[trigger] panes[i]) && panes[i].dirty;
    let any_deferred = exists|i: int| 0 <= i < panes.len() && sync_deferred(#[trigger] panes[i]);
    !(all_ready && !any_dirty && !any_deferred && !blink_changed && !minute_changed && !has_filter)
}

/// Whether a frame is drawn (see [`frame_due_spec`]).
pub fn frame_due(panes: &Vec<PaneFrame>, blink_changed: bool, minute_changed: bool, has_filter: bool) -> (r:
    bool)
    ensures
        r == frame_due_spec(panes@, blink_changed, minute_changed, has_filter),
{
    let mut all_ready = true;
    let mut any_dirty = false;
    let mut any_deferred = false;
    let mut i: usize = 0;
    while i < panes.len()
        invariant
            i <= panes.len(),
            all_ready == forall|j: int| 0 <= j < i ==> (#[trigger] panes@[j]).ready,
            any_dirty == exists|j: int|
                0 <= j < i && !sync_deferred(#[trigger] panes@[j]) && panes@[j].dirty,
            any_deferred == exists|j: int| 0 <= j < i && sync_deferred(#[trigger] panes@[j]),
        decreases panes.len() - i,
    {
        let p = panes[i];
        if !p.ready {
            all_ready = false;
        }
        let deferred = match p.sync_elapsed_ms {
            Some(ms) => ms < 100,
            None => false,
        };
        if deferred {
            any_deferred = true;
        } else if p.dirty {
            any_dirty = true;
        }
        i = i + 1;
        proof {
            assert(panes@[i - 1] == p);
        }
    }
    !(all_ready && !any_dirty && !any_deferred && !blink_changed && !minute_changed && !has_filter)
}

/// The working directory as the status bar shows it: relative to the home
/// directory (`~...`) when it is the home directory or lies below it.
pub open spec fn home_relative_spec(cwd: Seq<char>, home: Seq<char>) -> Seq<char> {
    if home.len() > 0 && home.len() <= cwd.len() && cwd.subrange(0, home.len() as int) == home && (
    cwd.len() == home.len() || cwd[home.len() as int] == '/') {
        seq!['~'] + cwd.subrange(home.len() as int, cwd.len() as int)
    } else {
        cwd
    }
}

pub fn home_relative_path(cwd: &str, home: &str) -> (s: String)
    ensures
        s@ == home_relative_spec(cwd@, home@),
{
    let c = chars_of(cwd);
    let h = chars_of(home);
    if h.len() == 0 || h.len() > c.len() {
        return String::from_str(cwd);
    }
    let mut k: usize = 0;
    while k < h.len()
        invariant
            h.len() <= c.len(),
            k <= h.len(),
            c@ == cwd@,
            h@ == home@,
            forall|j: int| 0 <= j < k ==> c@[j] == h@[j],
        decreases h.len() - k,
    {
        if c[k] != h[k] {
            proof {
                assert(c@.subrange(0, h.len() as int)[k as int] != h@[k as int]);
            }
            return String::from_str(cwd);
        }
        k = k + 1;
    }
    if c.len() > h.len() && c[h.len()] != '/' {
        return String::from_str(cwd);
    }
    let mut v: Vec<char> = Vec::new();
    v.push('~');
    let mut j = h.len();
    while j < c.len()
        invariant
            h.len() <= j <= c.len(),
            v@ == seq!['~'] + c@.subrange(h.len() as int, j as int),
        decreases c.len() - j,
    {
        v.push(c[j]);
        j = j + 1;
        proof {
            assert(v@ =~= seq!['~'] + c@.subrange(h.len() as int, j as int));
        }
    }
    proof {
        assert(c@.subrange(0, h.len() as int) =~= h@);
    }
    string_from_chars(&v)
}

/// The git part of the status bar: the branch after a space, or ` no git`.
pub open spec fn branch_label_spec(branch: Option<Seq<char>>) -> Seq<char> {
    match branch {
        Some(b) => seq![' '] + b,
        None => " no git"@,
    }
}

pub fn branch_label(branch: Option<&str>) -> (s: String)
    ensures
        s@ == branch_label_spec(
            match branch {
                Some(b) => Some(b@),
                None => None,
            },
        ),
{
    match branch {
        Some(b) => {
            let mut s = String::from_str(" ");
            s.append(b);
            proof {
                reveal_strlit(" ");
                assert(" "@ =~= seq![' ']);
            }
            s
        },
        None => String::from_str(" no git"),
    }
}

/// The scroll indicator of the status bar: an up arrow and the number of
/// lines scrolled back.
pub open spec fn scroll_indicator_spec(offset: u64) -> Seq<char> {
    seq!['\u{2191}'] + decimal(offset as nat)
}

pub fn scroll_indicator(offset: u64) -> (s: String)
    ensures
        s@ == scroll_indicator_spec(offset),
{
    let mut v: Vec<char> = Vec::new();
    v.push('\u{2191}');
    push_decimal(&mut v, offset);
    proof {
        assert(v@ =~= scroll_indicator_spec(offset));
    }
    string_from_chars(&v)
}

/// The global status bar's count of panes scrolled out of view to the left
/// and to the right, or nothing when none is hidden.
pub open spec fn hidden_indicator_spec(left: u64, right: u64) -> Option<Seq<char>> {
    if left > 0 && right > 0 {
        Some(seq!['\u{27F5}', ' '] + decimal(left as nat) + seq![' ', '|', ' '] + decimal(right as nat)
            + seq![' ', '\u{27F6}'])
    } else if left > 0 {
        Some(seq!['\u{27F5}', ' '] + decimal(left as nat))
    } else if right > 0 {
        Some(decimal(right as nat) + seq![' ', '\u{27F6}'])
    } else {
        None
    }
}

pub fn hidden_indicator(left: u64, right: u64) -> (s: Option<String>)
    ensures
        match s {
            Some(t) => hidden_indicator_spec(left, right) == Some(t@),
            None => hidden_indicator_spec(left, right) is None,
        },
{
    if left == 0 && right == 0 {
        return None;
    }
    let mut v: Vec<char> = Vec::new();
    if left > 0 {
        v.push('\u{27F5}');
        v.push(' ');
        push_decimal(&mut v, left);
        if right > 0 {
            v.push(' ');
            v.push('|');
            v.push(' ');
        }
    }
    if right > 0 {
        push_decimal(&mut v, right);
        v.push(' ');
        v.push('\u{27F6}');
    }
    proof {
        assert(v@ =~= hidden_indicator_spec(left, right)->0);
    }
    Some(string_from_chars(&v))
}

/// The title shown on a tab: titles longer than the limit are cut to their
/// first characters, or, while the tab is being renamed, to their last.
pub open spec fn displayed_title(title: Seq<char>, renaming: bool) -> Seq<char> {
    if title.len() > MAX_TAB_TITLE_CHARS {
        if renaming {
            title.subrange(title.len() - MAX_TAB_TITLE_CHARS, title.len() as int)
        } else {
            title.subrange(0, MAX_TAB_TITLE_CHARS as int)
        }
    } else {
        title
    }
}

/// The label of tab `index` (counted from zero): its number from one, a
/// colon and its displayed title.
pub open spec fn tab_label_spec(index: u64, title: Seq<char>, renaming: bool) -> Seq<char> {
    decimal(index as nat + 1) + seq![':'] + displayed_title(title, renaming)
}

pub fn tab_label(index: u64, title: &str, renaming: bool) -> (s: String)
    requires
        index < u64::MAX,
    ensures
        s@ == tab_label_spec(index, title@, renaming),
{
    let t = chars_of(title);
    let n = t.len();
    let (from, to) = if n > MAX_TAB_TITLE_CHARS {
        if renaming {
            (n - MAX_TAB_TITLE_CHARS, n)
        } else {
            (0, MAX_TAB_TITLE_CHARS)
        }
    } else {
        (0, n)
    };
    let mut v: Vec<char> = Vec::new();
    push_decimal(&mut v, index + 1);
    v.push(':');
    let ghost head = v@;
    let mut k = from;
    while k < to
        invariant
            from <= k <= to <= n,
            n == t.len(),
            v@ == head + t@.subrange(from as int, k as int),
        decreases to - k,
    {
        v.push(t[k]);
        k = k + 1;
        proof {
            assert(v@ =~= head + t@.subrange(from as int, k as int));
        }
    }
    proof {
        assert(t@.subrange(from as int, to as int) =~= displayed_title(title@, renaming));
        assert(v@ =~= tab_label_spec(index, title@, renaming));
    }
    string_from_chars(&v)
}

/// The palette entry of a tab's colour index.
pub fn tab_color_index(color: usize) -> (i: usize)
    ensures
        i == color % TAB_COLOR_COUNT,
        i < TAB_COLOR_COUNT,
{
    color % TAB_COLOR_COUNT
}

/// The search bar of the filter overlay: a slash, the query and a caret.
pub open spec fn filter_bar_spec(query: Seq<char>) -> Seq<char> {
    seq!['/', ' '] + query + seq!['\u{258F}']
}

pub fn filter_bar_text(query: &str) -> (s: String)
    ensures
        s@ == filter_bar_spec(query@),
{
    let mut s = String::from_str("/ ");
    s.append(query);
    s.append("\u{258F}");
    proof {
        reveal_strlit("/ ");
        reveal_strlit("\u{258F}");
        assert(s@ =~= filter_bar_spec(query@));
    }
    s
}

/// `"<n> matches"`.
pub open spec fn match_count_spec(n: u64) -> Seq<char> {
    decimal(n as nat) + " matches"@
}

pub fn match_count_text(n: u64) -> (s: String)
    ensures
        s@ == match_count_spec(n),
{
    let mut v: Vec<char> = Vec::new();
    push_decimal(&mut v, n);
    let mut s = string_from_chars(&v);
    s.append(" matches");
    s
}

/// `format!("{:>6}: ", line)`: the line number right-aligned in six columns.
pub open spec fn match_prefix_spec(line: u64) -> Seq<char> {
    let d = decimal(line as nat);
    let pad: int = if d.len() < 6 {
        6 - d.len()
    } else {
        0
    };
    Seq::new(pad as nat, |i: int| ' ') + d + seq![':', ' ']
}

pub fn match_prefix(line: u64) -> (s: String)
    ensures
        s@ == match_prefix_spec(line),
{
    let mut d: Vec<char> = Vec::new();
    push_decimal(&mut d, line);
    proof {
        assert(d@ =~= decimal(line as nat));
    }
    let mut v: Vec<char> = Vec::new();
    let pad: usize = if d.len() < 6 {
        6 - d.len()
    } else {
        0
    };
    let mut k: usize = 0;
    while k < pad
        invariant
            k <= pad,
            v@ == Seq::new(k as nat, |i: int| ' '),
        decreases pad - k,
    {
        v.push(' ');
        k = k + 1;
        proof {
            assert(v@ =~= Seq::new(k as nat, |i: int| ' '));
        }
    }
    let mut j: usize = 0;
    let ghost head = v@;
    while j < d.len()
        invariant
            j <= d.len(),
            v@ == head + d@.subrange(0, j as int),
        decreases d.len() - j,
    {
        v.push(d[j]);
        j = j + 1;
        proof {
            assert(v@ =~= head + d@.subrange(0, j as int));
        }
    }
    v.push(':');
    v.push(' ');
    proof {
        assert(d@.subrange(0, d.len() as int) =~= d@);
        assert(v@ =~= match_prefix_spec(line));
    }
    string_from_chars(&v)
}

/// The first `limit` characters of a text.
pub fn take_chars(text: &str, limit: usize) -> (s: String)
    ensures
        s@ == if text@.len() <= limit {
            text@
        } else {
            text@.subrange(0, limit as int)
        },
{
    let t = chars_of(text);
    let end = if t.len() <= limit {
        t.len()
    } else {
        limit
    };
    let mut v: Vec<char> = Vec::new();
    let mut k: usize = 0;
    while k < end
        invariant
            end <= t.len(),
            k <= end,
            v@ == t@.subrange(0, k as int),
        decreases end - k,
    {
        v.push(t[k]);
        k = k + 1;
        proof {
            assert(v@ =~= t@.subrange(0, k as int));
        }
    }
    proof {
        assert(t@.subrange(0, t.len() as int) =~= t@);
    }
    string_from_chars(&v)
}

/// A scrollback line that matches the filter query.
pub struct FilterMatch {
    /// The line's number, counted from the start of the scrollback.
    pub abs_line: usize,
    pub text: String,
}

/// Data passed to the renderer for drawing filter overlay.
pub struct FilterRenderData {
    pub query: String,
    pub matches: Vec<FilterMatch>,
}

impl FilterRenderData {
    /// The match count shown at the right of the search bar.
    pub fn count_text(&self) -> (s: String)
        ensures
            s@ == match_count_spec(self.matches@.len() as u64),
    {
        match_count_text(self.matches.len() as u64)
    }
}

/// `char::to_lowercase` of the standard library: the Unicode lower-case
/// mapping of one character, which may be several characters.
pub uninterp spec fn unicode_char_lowercase(c: char) -> Seq<char>;

/// `char::to_lowercase` of the standard library, collected. Its result is
/// stated to be `unicode_char_lowercase` of the argument and nothing more:
/// the Unicode case tables are not written out here.
#[verifier::external_body]
fn char_lowercase(c: char) -> (r: Vec<char>)
    ensures
        r@ == unicode_char_lowercase(c),
{
    c.to_lowercase().collect()
}

/// A character folded for a search without regard to case: its lower-case
/// form where that is one character, else the character itself (so that the
/// folded text keeps every character in place).
pub open spec fn fold_char(c: char) -> char {
    let l = unicode_char_lowercase(c);
    if l.len() == 1 {
        l[0]
    } else {
        c
    }
}

/// A text folded character by character (see [`fold_char`]).
pub open spec fn case_fold(s: Seq<char>) -> Seq<char> {
    s.map_values(|c: char| fold_char(c))
}

/// The characters of `s`, each folded (see [`fold_char`]).
fn fold_chars(s: &str) -> (v: Vec<char>)
    ensures
        v@ == case_fold(s@),
{
    let cs = chars_of(s);
    let mut v: Vec<char> = Vec::new();
    let mut i: usize = 0;
    while i < cs.len()
        invariant
            cs@ == s@,
            i <= cs.len(),
            v@ == case_fold(s@.take(i as int)),
        decreases cs.len() - i,
    {
        let c = cs[i];
        let l = char_lowercase(c);
        let f = if l.len() == 1 {
            l[0]
        } else {
            c
        };
        v.push(f);
        i = i + 1;
        proof {
            assert(s@.take(i as int) =~= s@.take(i - 1).push(c));
            assert(v@ =~= case_fold(s@.take(i as int)));
        }
    }
    proof {
        assert(s@.take(i as int) =~= s@);
    }
    v
}

/// Whether `needle` occurs in `hay` at index `i`.
pub open spec fn occurs_at(hay: Seq<char>, needle: Seq<char>, i: int) -> bool {
    0 <= i && i + needle.len() <= hay.len() && hay.subrange(i, i + needle.len()) == needle
}

/// The first index from `pos` on where `needle` occurs in `hay`.
pub open spec fn find_from(hay: Seq<char>, needle: Seq<char>, pos: int) -> Option<int>
    decreases hay.len() + 1 - pos,
{
    if pos < 0 || pos + needle.len() > hay.len() {
        None
    } else if occurs_at(hay, needle, pos) {
        Some(pos)
    } else {
        find_from(hay, needle, pos + 1)
    }
}

/// The spans of `text` from `pos` on, each marked when it is an occurrence
/// of the query: `text_lower` is the lower-cased text, searched for the
/// lower-cased query `query_lower`, character by character.
pub open spec fn spans_from(
    text: Seq<char>,
    text_lower: Seq<char>,
    query_lower: Seq<char>,
    pos: int,
) -> Seq<(Seq<char>, bool)>
    decreases text.len() - pos,
{
    if pos < 0 || pos >= text.len() || query_lower.len() == 0 {
        Seq::empty()
    } else {
        match find_from(text_lower, query_lower, pos) {
            Some(f) => {
                let end = f + query_lower.len();
                let head: Seq<(Seq<char>, bool)> = if f > pos {
                    seq![(text.subrange(pos, f), false)]
                } else {
                    Seq::empty()
                };
                if pos < end <= text.len() {
                    head + seq![(text.subrange(f, end), true)] + spans_from(
                        text,
                        text_lower,
                        query_lower,
                        end,
                    )
                } else {
                    Seq::empty()
                }
            },
            None => seq![(text.subrange(pos, text.len() as int), false)],
        }
    }
}

/// The spans of a filter match's text: the whole text for an empty query,
/// else the pieces between and at the occurrences of the query, found left
/// to right without overlap.
pub open spec fn highlight_spec(
    text: Seq<char>,
    text_lower: Seq<char>,
    query_lower: Seq<char>,
) -> Seq<(Seq<char>, bool)> {
    if query_lower.len() == 0 {
        seq![(text, false)]
    } else {
        spans_from(text, text_lower, query_lower, 0)
    }
}

pub open spec fn span_views(v: Seq<(String, bool)>) -> Seq<(Seq<char>, bool)> {
    Seq::new(v.len(), |i: int| (v[i].0@, v[i].1))
}

proof fn lemma_find_from_bounds(hay: Seq<char>, needle: Seq<char>, pos: int)
    requires
        pos >= 0,
    ensures
        find_from(hay, needle, pos) matches Some(f) ==> pos <= f && occurs_at(hay, needle, f)
            && forall|j: int| pos <= j < f ==> !occurs_at(hay, needle, j),
        find_from(hay, needle, pos) is None ==> forall|j: int| pos <= j ==> !occurs_at(hay, needle, j),
    decreases hay.len() + 1 - pos,
{
    if !(pos < 0 || pos + needle.len() > hay.len()) && !occurs_at(hay, needle, pos) {
        lemma_find_from_bounds(hay, needle, pos + 1);
    }
}

/// Whether `needle` occurs in `hay` at `i`.
fn occurs_at_exec(hay: &Vec<char>, needle: &Vec<char>, i: usize) -> (r: bool)
    requires
        i + needle.len() <= hay.len(),
    ensures
        r == occurs_at(hay@, needle@, i as int),
{
    let mut k: usize = 0;
    while k < needle.len()
        invariant
            i + needle.len() <= hay.len(),
            k <= needle.len(),
            forall|j: int| 0 <= j < k ==> hay@[i + j] == needle@[j],
        decreases needle.len() - k,
    {
        if hay[i + k] != needle[k] {
            proof {
                assert(hay@.subrange(i as int, i + needle.len())[k as int] != needle@[k as int]);
            }
            return false;
        }
        k = k + 1;
    }
    proof {
        assert(hay@.subrange(i as int, i + needle.len()) =~= needle@);
    }
    true
}

/// The first occurrence of `needle` in `hay` from `pos` on.
fn find_from_exec(hay: &Vec<char>, needle: &Vec<char>, pos: usize) -> (r: Option<usize>)
    requires
        needle.len() > 0,
    ensures
        match r {
            Some(f) => find_from(hay@, needle@, pos as int) == Some(f as int),
            None => find_from(hay@, needle@, pos as int) is None,
        },
{
    proof {
        lemma_find_from_bounds(hay@, needle@, pos as int);
    }
    if needle.len() > hay.len() {
        return None;
    }
    let last = hay.len() - needle.len();
    let mut i = pos;
    while i <= last
        invariant
            needle.len() > 0,
            last == hay.len() - needle.len(),
            pos <= i,
            forall|j: int| pos <= j < i ==> !occurs_at(hay@, needle@, j),
            find_from(hay@, needle@, pos as int) == find_from(hay@, needle@, i as int),
        decreases last + 1 - i,
    {
        if occurs_at_exec(hay, needle, i) {
            return Some(i);
        }
        i = i + 1;
    }
    None
}

/// Whether `needle` occurs somewhere in `hay` (`str::contains`).
pub fn contains_seq(hay: &Vec<char>, needle: &Vec<char>) -> (r: bool)
    ensures
        r == exists|i: int| occurs_at(hay@, needle@, i),
{
    if needle.len() == 0 {
        assert(occurs_at(hay@, needle@, 0)) by {
            assert(hay@.subrange(0, 0) =~= needle@);
        }
        return true;
    }
    proof {
        lemma_find_from_bounds(hay@, needle@, 0);
    }
    let r = find_from_exec(hay, needle, 0);
    r.is_some()
}

/// The characters `from..to` of `v` as a string.
fn slice_string(v: &Vec<char>, from: usize, to: usize) -> (s: String)
    requires
        from <= to <= v.len(),
    ensures
        s@ == v@.subrange(from as int, to as int),
{
    let mut out: Vec<char> = Vec::new();
    let mut k = from;
    while k < to
        invariant
            from <= k <= to <= v.len(),
            out@ == v@.subrange(from as int, k as int),
        decreases to - k,
    {
        out.push(v[k]);
        k = k + 1;
        proof {
            assert(out@ =~= v@.subrange(from as int, k as int));
        }
    }
    string_from_chars(&out)
}

/// The highlighted spans of `text`, given its lower-cased form and the
/// lower-cased query, which keep the characters in place.
pub fn highlight_spans_lowered(text: &str, text_lower: &str, query_lower: &str) -> (v: Vec<
    (String, bool),
>)
    requires
        text_lower@.len() == text@.len(),
    ensures
        span_views(v@) == highlight_spec(text@, text_lower@, query_lower@),
{
    let t = chars_of(text);
    let tl = chars_of(text_lower);
    let ql = chars_of(query_lower);
    let mut v: Vec<(String, bool)> = Vec::new();
    if ql.len() == 0 {
        v.push((String::from_str(text), false));
        proof {
            assert(span_views(v@) =~= seq![(text@, false)]);
        }
        return v;
    }
    let mut pos: usize = 0;
    while pos < t.len()
        invariant
            t@ == text@,
            tl@ == text_lower@,
            ql@ == query_lower@,
            tl.len() == t.len(),
            ql.len() > 0,
            pos <= t.len(),
            span_views(v@) + spans_from(t@, tl@, ql@, pos as int) == spans_from(t@, tl@, ql@, 0),
        decreases t.len() - pos,
    {
        let ghost before = span_views(v@);
        proof {
            lemma_find_from_bounds(tl@, ql@, pos as int);
        }
        match find_from_exec(&tl, &ql, pos) {
            Some(f) => {
                let end = f + ql.len();
                if f > pos {
                    v.push((slice_string(&t, pos, f), false));
                }
                v.push((slice_string(&t, f, end), true));
                proof {
                    let head: Seq<(Seq<char>, bool)> = if f > pos {
                        seq![(t@.subrange(pos as int, f as int), false)]
                    } else {
                        Seq::empty()
                    };
                    assert(span_views(v@) =~= before + head + seq![(t@.subrange(f as int, end as int), true)]);
                    assert(spans_from(t@, tl@, ql@, pos as int) == head + seq![
                        (t@.subrange(f as int, end as int), true),
                    ] + spans_from(t@, tl@, ql@, end as int));
                    assert(before + head + seq![(t@.subrange(f as int, end as int), true)]
                        + spans_from(t@, tl@, ql@, end as int) =~= before + (head + seq![
                        (t@.subrange(f as int, end as int), true),
                    ] + spans_from(t@, tl@, ql@, end as int)));
                }
                pos = end;
            },
            None => {
                v.push((slice_string(&t, pos, t.len()), false));
                proof {
                    assert(span_views(v@) =~= before + seq![(t@.subrange(pos as int, t.len() as int), false)]);
                }
                pos = t.len();
                proof {
                    assert(spans_from(t@, tl@, ql@, pos as int) =~= Seq::<(Seq<char>, bool)>::empty());
                    assert(span_views(v@) + spans_from(t@, tl@, ql@, pos as int) =~= span_views(v@));
                }
            },
        }
    }
    proof {
        assert(spans_from(t@, tl@, ql@, pos as int) =~= Seq::<(Seq<char>, bool)>::empty());
        assert(span_views(v@) + Seq::<(Seq<char>, bool)>::empty() =~= span_views(v@));
    }
    v
}

/// The highlighted spans of a filter match's text for a query, searched
/// without regard to case: text and query are folded character by character
/// (see [`fold_char`]), so that every span falls on whole characters of the
/// text.
pub fn highlight_spans(text: &str, query: &str) -> (v: Vec<(String, bool)>)
    ensures
        span_views(v@) == highlight_spec(text@, case_fold(text@), case_fold(query@)),
{
    let tl = string_from_chars(&fold_chars(text));
    let ql = string_from_chars(&fold_chars(query));
    highlight_spans_lowered(text, tl.as_str(), ql.as_str())
}

/// The text of a sequence of spans, put together.
pub open spec fn joined_spans(spans: Seq<(Seq<char>, bool)>) -> Seq<char>
    decreases spans.len(),
{
    if spans.len() == 0 {
        Seq::empty()
    } else {
        joined_spans(spans.drop_last()) + spans.last().0
    }
}

proof fn lemma_joined_concat(a: Seq<(Seq<char>, bool)>, b: Seq<(Seq<char>, bool)>)
    ensures
        joined_spans(a + b) == joined_spans(a) + joined_spans(b),
    decreases b.len(),
{
    if b.len() == 0 {
        assert(a + b =~= a);
        assert(joined_spans(a) + joined_spans(b) =~= joined_spans(a));
    } else {
        assert((a + b).drop_last() =~= a + b.drop_last());
        assert((a + b).last() == b.last());
        lemma_joined_concat(a, b.drop_last());
        assert(joined_spans(a) + joined_spans(b.drop_last()) + b.last().0 =~= joined_spans(a) + (
        joined_spans(b.drop_last()) + b.last().0));
    }
}

proof fn lemma_joined_single(x: (Seq<char>, bool))
    ensures
        joined_spans(seq![x]) == x.0,
{
    let s = seq![x];
    assert(s.drop_last() =~= Seq::<(Seq<char>, bool)>::empty());
    assert(joined_spans(s.drop_last()) == Seq::<char>::empty());
    assert(s.last() == x);
    assert(joined_spans(s) == joined_spans(s.drop_last()) + s.last().0);
    assert(Seq::<char>::empty() + x.0 =~= x.0);
}

proof fn lemma_spans_from_cover(
    text: Seq<char>,
    text_lower: Seq<char>,
    query_lower: Seq<char>,
    pos: int,
)
    requires
        text_lower.len() == text.len(),
        query_lower.len() > 0,
        0 <= pos <= text.len(),
    ensures
        joined_spans(spans_from(text, text_lower, query_lower, pos)) == text.subrange(
            pos,
            text.len() as int,
        ),
    decreases text.len() - pos,
{
    if pos == text.len() {
        assert(text.subrange(pos, text.len() as int) =~= Seq::<char>::empty());
    } else {
        lemma_find_from_bounds(text_lower, query_lower, pos);
        match find_from(text_lower, query_lower, pos) {
            Some(f) => {
                let end = f + query_lower.len();
                let head: Seq<(Seq<char>, bool)> = if f > pos {
                    seq![(text.subrange(pos, f), false)]
                } else {
                    Seq::empty()
                };
                let mid = seq![(text.subrange(f, end), true)];
                let rest = spans_from(text, text_lower, query_lower, end);
                lemma_spans_from_cover(text, text_lower, query_lower, end);
                lemma_joined_concat(head + mid, rest);
                lemma_joined_concat(head, mid);
                lemma_joined_single((text.subrange(f, end), true));
                if f > pos {
                    lemma_joined_single((text.subrange(pos, f), false));
                } else {
                    assert(joined_spans(head) =~= Seq::<char>::empty());
                }
                assert(joined_spans(head) =~= text.subrange(pos, f));
                assert(text.subrange(pos, f) + text.subrange(f, end) + text.subrange(
                    end,
                    text.len() as int,
                ) =~= text.subrange(pos, text.len() as int));
            },
            None => {
                lemma_joined_single((text.subrange(pos, text.len() as int), false));
            },
        }
    }
}

/// The highlighted spans of a text put together give the text back: the
/// highlighting splits the text and neither loses nor repeats a character.
pub proof fn lemma_highlight_keeps_text(
    text: Seq<char>,
    text_lower: Seq<char>,
    query_lower: Seq<char>,
)
    requires
        text_lower.len() == text.len(),
    ensures
        joined_spans(highlight_spec(text, text_lower, query_lower)) == text,
{
    if query_lower.len() == 0 {
        lemma_joined_single((text, false));
    } else {
        lemma_spans_from_cover(text, text_lower, query_lower, 0);
        assert(text.subrange(0, text.len() as int) =~= text);
    }
}

} // verus!
