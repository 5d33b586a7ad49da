use gitmedit::wrap::{locate, wrap, Segment};

fn texts(segments: &[Segment]) -> Vec<&str> {
    segments.iter().map(|s| s.text.as_str()).collect()
}

#[test]
fn short_line_is_one_segment() {
    assert_eq!(wrap("short", 40), vec![Segment { start: 0, text: "short".into() }]);
}

#[test]
fn empty_line_is_one_empty_segment() {
    assert_eq!(texts(&wrap("", 40)), vec![""]);
}

#[test]
fn zero_width_does_not_wrap() {
    assert_eq!(texts(&wrap("any text", 0)), vec!["any text"]);
}

#[test]
fn breaks_at_last_space_that_fits() {
    let s = wrap("hello world foo bar baz", 11);
    assert_eq!(texts(&s), vec!["hello world", "foo bar baz"]);
    assert_eq!(s[1].start, 12);
}

#[test]
fn hard_breaks_words_wider_than_width() {
    assert_eq!(texts(&wrap("abcdefghijklmnop", 5)), vec!["abcde", "fghij", "klmno", "p"]);
}

#[test]
fn rows_never_exceed_width_on_multibyte_text() {
    for seg in wrap("cafe\u{0301} is good and long enough", 6) {
        assert!(seg.text.chars().count() <= 6, "{seg:?}");
    }
}

#[test]
fn no_text_is_lost() {
    let line = "the quick brown fox jumps over the lazy dog";
    let rows: Vec<String> = wrap(line, 10).into_iter().map(|s| s.text).collect();
    assert_eq!(rows.join(" "), line);
}

#[test]
fn locate_maps_columns_to_rows() {
    let s = wrap("hello world foo", 10);
    assert_eq!(texts(&s), vec!["hello", "world foo"]);
    assert_eq!(locate(&s, 0), (0, 0));
    assert_eq!(locate(&s, 5), (0, 5));
    assert_eq!(locate(&s, 6), (1, 0));
    assert_eq!(locate(&s, 15), (1, 9));
}

#[test]
fn rows_start_where_the_line_continues() {
    let s = wrap("aa bb cc", 2);
    assert_eq!(texts(&s), vec!["aa", "bb", "cc"]);
    assert_eq!(s.iter().map(|r| r.start).collect::<Vec<_>>(), vec![0, 3, 6]);
}
