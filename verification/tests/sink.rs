use embedded_error_chain::{FmtError, TextSink};

#[test]
fn sink_without_limit_takes_everything() {
    let mut sink = TextSink::new();
    assert_eq!(sink.write_str("abc"), Ok(()));
    assert_eq!(sink.write_str(""), Ok(()));
    assert_eq!(sink.write_str("d\u{e9}f"), Ok(()));
    assert_eq!(sink.as_str(), "abcd\u{e9}f");
    assert_eq!(sink.into_string(), "abcd\u{e9}f");
}

#[test]
fn sink_with_limit_refuses_what_does_not_fit() {
    let mut sink = TextSink::with_limit(5);
    assert_eq!(sink.write_str("abc"), Ok(()));
    assert_eq!(sink.write_str("def"), Err(FmtError));
    assert_eq!(sink.as_str(), "abc");
    assert_eq!(sink.write_str("de"), Ok(()));
    assert_eq!(sink.write_str("f"), Err(FmtError));
    assert_eq!(sink.write_str(""), Ok(()));
    assert_eq!(sink.into_string(), "abcde");
}

#[test]
fn sink_counts_characters_not_bytes() {
    let mut sink = TextSink::with_limit(3);
    assert_eq!(sink.write_str("\u{e4}\u{f6}\u{fc}"), Ok(()));
    assert_eq!(sink.write_str("x"), Err(FmtError));
    assert_eq!(sink.as_str(), "\u{e4}\u{f6}\u{fc}");
}

#[test]
fn sink_with_no_room_takes_the_empty_text_only() {
    let mut sink = TextSink::with_limit(0);
    assert_eq!(sink.write_str(""), Ok(()));
    assert_eq!(sink.write_str("a"), Err(FmtError));
    assert_eq!(sink.as_str(), "");
}
