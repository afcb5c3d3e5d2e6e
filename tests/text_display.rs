use zeedle::text::{format_clock, truncate_by_width};

#[test]
fn short_text_is_kept_whole() {
    assert_eq!(truncate_by_width("hello", 24), "hello");
}

#[test]
fn exact_fit_is_kept_whole() {
    assert_eq!(truncate_by_width("abcde", 5), "abcde");
}

#[test]
fn long_text_gets_an_ellipsis() {
    assert_eq!(truncate_by_width("abcdefghij", 5), "abcde...");
}

#[test]
fn wide_glyphs_count_two_cells() {
    assert_eq!(truncate_by_width("你好世界", 5), "你好...");
    assert_eq!(truncate_by_width("你好世界", 8), "你好世界");
}

#[test]
fn control_characters_take_no_room() {
    assert_eq!(truncate_by_width("a\u{1}b", 2), "a\u{1}b");
}

#[test]
fn empty_text_stays_empty() {
    assert_eq!(truncate_by_width("", 0), "");
    assert_eq!(truncate_by_width("x", 0), "...");
}

#[test]
fn clock_pads_to_two_digits() {
    assert_eq!(format_clock(0), "00:00");
    assert_eq!(format_clock(65), "01:05");
    assert_eq!(format_clock(599), "09:59");
    assert_eq!(format_clock(6000), "100:00");
}
