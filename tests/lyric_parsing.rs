use zeedle::lyrics::{parse_lyrics, LAST_LINE_SPAN};

fn summary(text: &str) -> Vec<(u64, String, u64)> {
    parse_lyrics(text).into_iter().map(|l| (l.time, l.text, l.span)).collect()
}

#[test]
fn two_lines_with_spans() {
    assert_eq!(
        summary("[00:05]Hello\n[00:08]World"),
        vec![(500, "Hello".to_string(), 300), (800, "World".to_string(), 10000)]
    );
    assert_eq!(LAST_LINE_SPAN, 10000);
}

#[test]
fn hundredths_are_kept() {
    assert_eq!(summary("[01:02.50]x"), vec![(6250, "x".to_string(), 10000)]);
    assert_eq!(summary("[00:01.234]y"), vec![(123, "y".to_string(), 10000)]);
}

#[test]
fn three_fields_read_as_hours_minutes_seconds() {
    assert_eq!(summary("[1:2:3]x"), vec![(372300, "x".to_string(), 10000)]);
}

#[test]
fn four_fields_are_malformed() {
    assert!(parse_lyrics("[0:1:2:3]x").is_empty());
}

#[test]
fn lines_are_put_in_time_order() {
    assert_eq!(
        summary("[00:09]c\n[00:03]a\n[00:06]b1\n[00:06]b2"),
        vec![
            (300, "a".to_string(), 300),
            (600, "b1".to_string(), 0),
            (600, "b2".to_string(), 300),
            (900, "c".to_string(), 10000),
        ]
    );
}

#[test]
fn unusable_lines_are_dropped() {
    let text = "no timestamp\n[00:00]zero\n[00:03]\n[ab:cd]bad\n[00:04]ok\n[00:02]earlier\n[00:06]end";
    assert_eq!(
        summary(text),
        vec![
            (200, "earlier".to_string(), 200),
            (400, "ok".to_string(), 200),
            (600, "end".to_string(), 10000),
        ]
    );
}

#[test]
fn malformed_field_counts_as_zero() {
    assert_eq!(summary("[xx:07]seven"), vec![(700, "seven".to_string(), 10000)]);
}

#[test]
fn empty_text_has_no_lines() {
    assert!(parse_lyrics("").is_empty());
    assert!(parse_lyrics("just words\nmore words").is_empty());
}
