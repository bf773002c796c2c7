use kova::renderer::{
    highlight_spans, highlight_spans_lowered, FilterMatch, FilterRenderData, branch_label, clock_text, filter_bar_text, hidden_indicator, home_relative_path,
    match_count_text, match_prefix, scroll_indicator, tab_color_index, tab_label, take_chars,
    ClockCache, CursorBlink, MAX_TAB_TITLE_CHARS, TAB_COLOR_COUNT, frame_due, PaneFrame,
};

#[test]
fn clock_is_zero_padded() {
    assert_eq!(clock_text(9, 5), "09:05");
    assert_eq!(clock_text(23, 59), "23:59");
    assert_eq!(clock_text(0, 0), "00:00");
    assert_eq!(clock_text(10, 10), "10:10");
}

#[test]
fn clock_cache_refreshes_once_per_minute() {
    let mut c = ClockCache::new();
    assert!(c.update(120, 14, 2));
    assert_eq!(c.text, "14:02");
    // Same minute: no change, even with other local values.
    assert!(!c.update(179, 7, 7));
    assert_eq!(c.text, "14:02");
    assert!(c.update(180, 14, 3));
    assert_eq!(c.text, "14:03");
    assert_eq!(c.last_minute, 3);
}

#[test]
fn cursor_blinks_with_period() {
    let mut b = CursorBlink::new(4);
    // counter 1: 1 % 4 < 2 shown; 1 % 2 != 0 no toggle
    assert_eq!(b.advance(None), (true, false));
    // counter 2: hidden, toggled
    assert_eq!(b.advance(None), (false, true));
    assert_eq!(b.advance(None), (false, false));
    // counter 4: shown, toggled
    assert_eq!(b.advance(None), (true, true));
    // A cursor move restarts the blink.
    assert_eq!(b.advance(Some(7)), (true, false));
    assert_eq!(b.blink_counter, 1);
    assert_eq!(b.last_cursor_epoch, 7);
    // The same epoch again does not restart.
    assert_eq!(b.advance(Some(7)), (false, true));
}

#[test]
fn cursor_without_blinking() {
    let mut b = CursorBlink::new(1);
    for _ in 0..5 {
        assert_eq!(b.advance(None), (true, false));
    }
    let mut z = CursorBlink::new(0);
    assert_eq!(z.advance(Some(3)), (true, false));
}

#[test]
fn blink_counter_wraps() {
    let mut b = CursorBlink { blink_counter: u32::MAX, last_cursor_epoch: 0, cursor_blink_frames: 4 };
    assert_eq!(b.advance(None), (true, true));
    assert_eq!(b.blink_counter, 0);
}

#[test]
fn home_is_shortened_to_tilde() {
    assert_eq!(home_relative_path("/home/ana/src", "/home/ana"), "~/src");
    assert_eq!(home_relative_path("/home/ana", "/home/ana"), "~");
    assert_eq!(home_relative_path("/tmp", "/home/ana"), "/tmp");
    assert_eq!(home_relative_path("/home/anabel", "/home/ana"), "/home/anabel");
    assert_eq!(home_relative_path("/home/ana/", "/home/ana"), "~/");
    assert_eq!(home_relative_path("/home/ab", "/home/a"), "/home/ab");
    assert_eq!(home_relative_path("/home/a/b", "/home/a"), "~/b");
    assert_eq!(home_relative_path("/x", ""), "/x");
}

#[test]
fn branch_and_scroll_labels() {
    assert_eq!(branch_label(Some("main")), " main");
    assert_eq!(branch_label(None), " no git");
    assert_eq!(scroll_indicator(42), "\u{2191}42");
    assert_eq!(scroll_indicator(0), "\u{2191}0");
}

#[test]
fn hidden_panes_indicator() {
    assert_eq!(hidden_indicator(0, 0), None);
    assert_eq!(hidden_indicator(2, 0).as_deref(), Some("\u{27F5} 2"));
    assert_eq!(hidden_indicator(0, 3).as_deref(), Some("3 \u{27F6}"));
    assert_eq!(hidden_indicator(1, 12).as_deref(), Some("\u{27F5} 1 | 12 \u{27F6}"));
}

#[test]
fn tab_labels_truncate_long_titles() {
    assert_eq!(tab_label(0, "zsh", false), "1:zsh");
    let long = "abcdefghijklmnopqrstuvwxyz0123";
    assert_eq!(tab_label(2, long, false), "3:abcdefghijklmnopqrstuvwxy");
    assert_eq!(tab_label(2, long, true), "3:fghijklmnopqrstuvwxyz0123");
    let exact = "abcdefghijklmnopqrstuvwxy";
    assert_eq!(exact.chars().count(), MAX_TAB_TITLE_CHARS);
    assert_eq!(tab_label(9, exact, true), "10:abcdefghijklmnopqrstuvwxy");
}

#[test]
fn tab_colors_cycle() {
    assert_eq!(TAB_COLOR_COUNT, 6);
    assert_eq!(tab_color_index(0), 0);
    assert_eq!(tab_color_index(5), 5);
    assert_eq!(tab_color_index(6), 0);
    assert_eq!(tab_color_index(13), 1);
}

#[test]
fn filter_overlay_texts() {
    assert_eq!(filter_bar_text("err"), "/ err\u{258F}");
    assert_eq!(filter_bar_text(""), "/ \u{258F}");
    assert_eq!(match_count_text(0), "0 matches");
    assert_eq!(match_count_text(17), "17 matches");
    assert_eq!(match_prefix(42), "    42: ");
    assert_eq!(match_prefix(1234567), "1234567: ");
    assert_eq!(match_prefix(0), format!("{:>6}: ", 0));
}

#[test]
fn take_chars_counts_characters() {
    assert_eq!(take_chars("héllo", 2), "hé");
    assert_eq!(take_chars("ab", 5), "ab");
    assert_eq!(take_chars("abc", 0), "");
}

fn spans(v: &[(&str, bool)]) -> Vec<(String, bool)> {
    v.iter().map(|(t, h)| (t.to_string(), *h)).collect()
}

#[test]
fn filter_count_text() {
    let f = FilterRenderData {
        query: "err".to_string(),
        matches: vec![
            FilterMatch { abs_line: 3, text: "error: x".to_string() },
            FilterMatch { abs_line: 9, text: "Error: y".to_string() },
        ],
    };
    assert_eq!(f.count_text(), "2 matches");
    assert_eq!(f.matches[1].abs_line, 9);
}

#[test]
fn matches_are_highlighted_without_regard_to_case() {
    assert_eq!(
        highlight_spans("Error: an error", "ERR"),
        spans(&[("Err", true), ("or: an ", false), ("err", true), ("or", false)])
    );
    assert_eq!(highlight_spans("abc", ""), spans(&[("abc", false)]));
    assert_eq!(highlight_spans("abc", "x"), spans(&[("abc", false)]));
    assert_eq!(highlight_spans("aaaa", "aa"), spans(&[("aa", true), ("aa", true)]));
    assert_eq!(highlight_spans("", "a"), vec![]);
    assert_eq!(highlight_spans("ÉTÉ été", "été"), spans(&[("ÉTÉ", true), (" ", false), ("été", true)]));
    assert_eq!(highlight_spans("ΣΑΣ σας", "σ"), spans(&[("Σ", true), ("Α", false), ("Σ", true), (" ", false), ("σ", true), ("ας", false)]));
}

#[test]
fn characters_with_a_longer_lower_case_still_highlight() {
    // 'İ' lower-cases to two characters: it is compared as itself, and the
    // rest of the line is still searched.
    assert_eq!(highlight_spans("İx", "x"), spans(&[("İ", false), ("x", true)]));
    assert_eq!(highlight_spans("aİXb", "İx"), spans(&[("a", false), ("İX", true), ("b", false)]));
    assert_eq!(highlight_spans("İ", "i"), spans(&[("İ", false)]));
}

#[test]
fn spans_from_lowered_text() {
    assert_eq!(
        highlight_spans_lowered("xAbAb", "xabab", "ab"),
        spans(&[("x", false), ("Ab", true), ("Ab", true)])
    );
    assert_eq!(highlight_spans_lowered("", "", ""), spans(&[("", false)]));
}

#[test]
fn highlighting_keeps_the_text() {
    for (text, query) in [("Error: an error", "err"), ("aaaa", "a"), ("xyz", "q"), ("", "q"), ("AbAb", "")] {
        let joined: String = highlight_spans(text, query).into_iter().map(|(t, _)| t).collect();
        assert_eq!(joined, text);
    }
}

#[test]
fn frames_are_drawn_only_when_something_changed() {
    let calm = PaneFrame { ready: true, sync_elapsed_ms: None, dirty: false };
    assert!(!frame_due(&vec![calm, calm], false, false, false));
    assert!(!frame_due(&vec![], false, false, false));
    assert!(frame_due(&vec![calm, PaneFrame { dirty: true, ..calm }], false, false, false));
    assert!(frame_due(&vec![PaneFrame { ready: false, ..calm }], false, false, false));
    assert!(frame_due(&vec![calm], true, false, false));
    assert!(frame_due(&vec![calm], false, true, false));
    assert!(frame_due(&vec![calm], false, false, true));
    // A synchronized update under 100 ms keeps frames coming until it is
    // over; an older one no longer counts.
    assert!(frame_due(&vec![PaneFrame { sync_elapsed_ms: Some(50), ..calm }], false, false, false));
    assert!(!frame_due(&vec![PaneFrame { sync_elapsed_ms: Some(150), ..calm }], false, false, false));
    assert!(frame_due(&vec![PaneFrame { sync_elapsed_ms: Some(150), dirty: true, ..calm }], false, false, false));
}
