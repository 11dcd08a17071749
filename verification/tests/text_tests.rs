use grain::text::crop_line_for_scroll;
use grain::text::visual_width;

#[test]
fn width_counts_plain_chars() {
    assert_eq!(visual_width(""), 0);
    assert_eq!(visual_width("hello"), 5);
    assert_eq!(visual_width("a b c"), 5);
}

#[test]
fn width_skips_escape_runs() {
    assert_eq!(visual_width("\x1b[31mab\x1b[0m"), 2);
    assert_eq!(visual_width("\x1b[1;32mx\x1b[0m tail"), 6);
}

#[test]
fn width_ignores_unterminated_escape() {
    assert_eq!(visual_width("ab\x1b[31"), 2);
    assert_eq!(visual_width("\x1b"), 0);
}

#[test]
fn crop_at_zero_is_identity() {
    assert_eq!(crop_line_for_scroll("abc", 0), "abc");
    assert_eq!(crop_line_for_scroll("\x1b[31mabc", 0), "\x1b[31mabc");
    assert_eq!(crop_line_for_scroll("", 0), "");
}

#[test]
fn crop_plain_line_keeps_tail() {
    assert_eq!(crop_line_for_scroll("abcde", 2), "cde");
    assert_eq!(crop_line_for_scroll("abcde", 4), "e");
}

#[test]
fn crop_keeps_styling_before_the_column() {
    assert_eq!(crop_line_for_scroll("\x1b[31mabc\x1b[0m", 1), "\x1b[31mbc\x1b[0m");
    assert_eq!(crop_line_for_scroll("a\x1b[32mbc", 2), "\x1b[32mc");
}

#[test]
fn crop_past_width_leaves_nothing_visible() {
    assert_eq!(crop_line_for_scroll("abc", 5), " ");
    assert_eq!(crop_line_for_scroll("abc", 3), " ");
    let styled_only = crop_line_for_scroll("\x1b[31mab\x1b[0m", 2);
    assert_eq!(styled_only, "\x1b[31m\x1b[0m");
    assert_eq!(visual_width(&styled_only), 0);
}

#[test]
fn crop_empty_line_stays_empty() {
    assert_eq!(crop_line_for_scroll("", 3), "");
}

#[test]
fn crop_flushes_open_escape_run() {
    assert_eq!(crop_line_for_scroll("a\x1b[3", 1), "\x1b[3");
}

#[test]
fn recropping_at_zero_changes_nothing() {
    for line in ["abcde", "\x1b[31mabc\x1b[0m", "", "x"] {
        for k in 0..6usize {
            let once = crop_line_for_scroll(line, k);
            assert_eq!(crop_line_for_scroll(&once, 0), once);
        }
    }
}
