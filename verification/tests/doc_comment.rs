use embedded_error_chain::doc_comment::{
    count_leading_space, count_trailing_space, doc_sections, is_blank, parse_doc_comment,
    parse_doc_comment_sections, split_lines, trim, DocCommentSectionsParseState,
};

fn lines(text: &[&str]) -> Vec<String> {
    text.iter().map(|line| line.to_string()).collect()
}

#[test]
fn blank_lines_hold_white_space_only() {
    assert!(is_blank(""));
    assert!(is_blank(" "));
    assert!(is_blank(" \t\r\n"));
    assert!(is_blank("\u{a0}\u{2003}"));
    assert!(!is_blank("a"));
    assert!(!is_blank("  a  "));
    assert!(!is_blank("_"));
}

#[test]
fn trim_takes_white_space_off_both_ends() {
    assert_eq!(trim(""), "");
    assert_eq!(trim("   "), "");
    assert_eq!(trim("abc"), "abc");
    assert_eq!(trim("  abc"), "abc");
    assert_eq!(trim("abc\t "), "abc");
    assert_eq!(trim(" \ta b  c\r\n"), "a b  c");
    assert_eq!(trim("\u{a0}\u{e4}\u{2003}"), "\u{e4}");
}

#[test]
fn white_space_is_counted_at_both_ends() {
    let text: Vec<char> = "  a b \t".chars().collect();
    assert_eq!(count_leading_space(&text), 2);
    assert_eq!(count_trailing_space(&text), 2);
    let blank: Vec<char> = " \t ".chars().collect();
    assert_eq!(count_leading_space(&blank), 3);
    assert_eq!(count_trailing_space(&blank), 3);
    assert_eq!(count_leading_space(&[]), 0);
    assert_eq!(count_trailing_space(&[]), 0);
}

#[test]
fn comment_is_split_at_line_breaks() {
    assert_eq!(split_lines(""), lines(&[""]));
    assert_eq!(split_lines("abc"), lines(&["abc"]));
    assert_eq!(split_lines("a\nb"), lines(&["a", "b"]));
    assert_eq!(split_lines("\n"), lines(&["", ""]));
    assert_eq!(split_lines("a\n\nb\n"), lines(&["a", "", "b", ""]));
    assert_eq!(split_lines("\u{e4}\n\u{f6}"), lines(&["\u{e4}", "\u{f6}"]));
}

#[test]
fn doc_comment_lines_lose_their_first_space() {
    assert_eq!(parse_doc_comment(" Summary"), lines(&["Summary"]));
    assert_eq!(parse_doc_comment("Summary"), lines(&["Summary"]));
    assert_eq!(parse_doc_comment("  two"), lines(&[" two"]));
    assert_eq!(parse_doc_comment(""), lines(&[""]));
    assert_eq!(parse_doc_comment(" "), lines(&[""]));
    assert_eq!(
        parse_doc_comment(" a\n\tb\nc\n  d"),
        lines(&["a", "b", "c", " d"])
    );
}

#[test]
fn walk_goes_from_summary_to_details() {
    let mut state = DocCommentSectionsParseState::Summary;
    assert_eq!(
        parse_doc_comment_sections(&mut state, "first".to_string()),
        Some((true, "first".to_string()))
    );
    assert_eq!(state, DocCommentSectionsParseState::Summary);
    assert_eq!(
        parse_doc_comment_sections(&mut state, "  ".to_string()),
        Some((false, String::new()))
    );
    assert_eq!(state, DocCommentSectionsParseState::EmptyLines);
    assert_eq!(
        parse_doc_comment_sections(&mut state, " ".to_string()),
        None
    );
    assert_eq!(state, DocCommentSectionsParseState::EmptyLines);
    assert_eq!(
        parse_doc_comment_sections(&mut state, "detail".to_string()),
        Some((false, "detail".to_string()))
    );
    assert_eq!(state, DocCommentSectionsParseState::Details);
    assert_eq!(
        parse_doc_comment_sections(&mut state, "".to_string()),
        Some((false, "".to_string()))
    );
    assert_eq!(state, DocCommentSectionsParseState::Details);
}

#[test]
fn summary_and_details_are_parted_by_a_blank_line() {
    let (summary, details) = doc_sections(&lines(&[
        "Summary starts here...",
        "  some more summary  ",
        "...and ends here.",
        "",
        "Details start here...",
        "",
        " more details",
        "...and end here.",
    ]));
    assert_eq!(
        summary,
        "Summary starts here... some more summary ...and ends here."
    );
    assert_eq!(
        details,
        "Details start here...\n\n more details\n...and end here."
    );
}

#[test]
fn comment_without_a_blank_line_is_all_summary() {
    let (summary, details) = doc_sections(&lines(&["This is a summary", "multiline"]));
    assert_eq!(summary, "This is a summary multiline");
    assert_eq!(details, "");
}

#[test]
fn blank_lines_before_the_summary_are_passed_over() {
    let (summary, details) = doc_sections(&lines(&["", "  ", "Summary", "", "Details"]));
    assert_eq!(summary, "Summary");
    assert_eq!(details, "Details");
}

#[test]
fn second_blank_line_behind_the_summary_ends_the_comment() {
    let (summary, details) = doc_sections(&lines(&["Summary", "", "", "Details"]));
    assert_eq!(summary, "Summary");
    assert_eq!(details, "");
}

#[test]
fn comment_without_text_has_neither_summary_nor_details() {
    assert_eq!(doc_sections(&lines(&[])), (String::new(), String::new()));
    assert_eq!(
        doc_sections(&lines(&["", " ", "\t"])),
        (String::new(), String::new())
    );
    assert_eq!(
        doc_sections(&lines(&["Summary", ""])),
        ("Summary".to_string(), String::new())
    );
}
