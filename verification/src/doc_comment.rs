//! The documentation comment of a variant: its lines, and the summary and
//! the details that they hold.

use crate::str_placeholder::chars_of;
use vstd::prelude::*;
use vstd::string::StrSliceExecFns;
use vstd::string::StringExecFns;

verus! {

/// Whether `c` has the Unicode property `White_Space`, as
/// `char::is_whitespace` tells.
pub uninterp spec fn is_white_space(c: char) -> bool;

/// Whether `c` is white space.
///
/// Calls `char::is_whitespace` of the standard library. The contract gives
/// its result the name [`is_white_space`] and says no more of it.
#[verifier::external_body]
pub(crate) fn char_is_whitespace(c: char) -> (white: bool)
    ensures
        white == is_white_space(c),
{
    c.is_whitespace()
}

/// Whether `text` holds nothing but white space.
pub open spec fn blank(text: Seq<char>) -> bool {
    forall|i: int| 0 <= i < text.len() ==> is_white_space(#[trigger] text[i])
}

/// The number of white space characters at the start of `text`.
pub open spec fn leading_space(text: Seq<char>) -> nat
    decreases text.len(),
{
    if text.len() > 0 && is_white_space(text[0]) {
        1 + leading_space(text.drop_first())
    } else {
        0
    }
}

/// The number of white space characters at the end of `text`.
pub open spec fn trailing_space(text: Seq<char>) -> nat
    decreases text.len(),
{
    if text.len() > 0 && is_white_space(text.last()) {
        1 + trailing_space(text.drop_last())
    } else {
        0
    }
}

/// `text` without the white space at its start and at its end.
pub open spec fn trimmed(text: Seq<char>) -> Seq<char> {
    if leading_space(text) == text.len() {
        Seq::empty()
    } else {
        text.subrange(leading_space(text) as int, text.len() - trailing_space(text))
    }
}

/// `text` without its first character, if that is white space.
pub open spec fn without_first_space(text: Seq<char>) -> Seq<char> {
    if text.len() > 0 && is_white_space(text[0]) {
        text.drop_first()
    } else {
        text
    }
}

/// The pieces of `text` between the characters equal to `sep`. A text
/// without `sep` is one piece, and so is the empty text.
pub open spec fn split(text: Seq<char>, sep: char) -> Seq<Seq<char>>
    decreases text.len(),
{
    if text.len() == 0 {
        seq![Seq::empty()]
    } else {
        let before = split(text.drop_last(), sep);
        if text.last() == sep {
            before.push(Seq::empty())
        } else {
            before.drop_last().push(before.last().push(text.last()))
        }
    }
}

/// The texts of `lines`.
pub open spec fn texts(lines: Seq<String>) -> Seq<Seq<char>> {
    Seq::new(lines.len(), |i: int| lines[i]@)
}

/// `pieces` put together with `sep` between them.
pub open spec fn joined(pieces: Seq<Seq<char>>, sep: Seq<char>) -> Seq<char>
    decreases pieces.len(),
{
    if pieces.len() == 0 {
        Seq::empty()
    } else if pieces.len() == 1 {
        pieces[0]
    } else {
        joined(pieces.drop_last(), sep) + sep + pieces.last()
    }
}

/// The white space at the start of a text is no longer than the text, and
/// the character behind it is not white space.
pub proof fn lemma_leading_space(text: Seq<char>)
    ensures
        leading_space(text) <= text.len(),
        forall|i: int| 0 <= i < leading_space(text) ==> is_white_space(#[trigger] text[i]),
        leading_space(text) < text.len() ==> !is_white_space(text[leading_space(text) as int]),
        blank(text) <==> leading_space(text) == text.len(),
    decreases text.len(),
{
    if text.len() > 0 && is_white_space(text[0]) {
        let rest = text.drop_first();
        lemma_leading_space(rest);
        assert forall|i: int| 0 <= i < leading_space(text) implies is_white_space(
            #[trigger] text[i],
        ) by {
            if i > 0 {
                assert(text[i] == rest[i - 1]);
            }
        }
        if leading_space(text) < text.len() {
            assert(text[leading_space(text) as int] == rest[leading_space(rest) as int]);
        }
        if blank(text) {
            assert forall|i: int| 0 <= i < rest.len() implies is_white_space(
                #[trigger] rest[i],
            ) by {
                assert(rest[i] == text[i + 1]);
            }
        }
    }
}

/// The white space at the end of a text is no longer than the text, and
/// the character before it is not white space.
pub proof fn lemma_trailing_space(text: Seq<char>)
    ensures
        trailing_space(text) <= text.len(),
        forall|i: int|
            text.len() - trailing_space(text) <= i < text.len() ==> is_white_space(
                #[trigger] text[i],
            ),
        trailing_space(text) < text.len() ==> !is_white_space(
            text[text.len() - trailing_space(text) - 1],
        ),
    decreases text.len(),
{
    if text.len() > 0 && is_white_space(text.last()) {
        let rest = text.drop_last();
        lemma_trailing_space(rest);
        assert forall|i: int|
            text.len() - trailing_space(text) <= i < text.len() implies is_white_space(
            #[trigger] text[i],
        ) by {
            if i < text.len() - 1 {
                assert(text[i] == rest[i]);
            }
        }
        if trailing_space(text) < text.len() {
            assert(text[text.len() - trailing_space(text) - 1] == rest[rest.len() - trailing_space(
                rest,
            ) - 1]);
        }
    }
}

/// The number of white space characters at the start of `text`.
pub fn count_leading_space(text: &[char]) -> (count: usize)
    ensures
        count == leading_space(text@),
{
    let mut at: usize = 0;
    assert(text@.skip(0) =~= text@);
    while at < text.len() && char_is_whitespace(text[at])
        invariant
            at <= text@.len(),
            leading_space(text@) == at + leading_space(text@.skip(at as int)),
        decreases text@.len() - at,
    {
        assert(text@.skip(at as int).drop_first() =~= text@.skip(at as int + 1));
        at += 1;
    }
    at
}

/// The number of white space characters at the end of `text`.
pub fn count_trailing_space(text: &[char]) -> (count: usize)
    ensures
        count == trailing_space(text@),
{
    let len: usize = text.len();
    let mut at: usize = len;
    assert(text@.take(len as int) =~= text@);
    while at > 0 && char_is_whitespace(text[at - 1])
        invariant
            at <= len,
            len == text@.len(),
            trailing_space(text@) == (len - at) + trailing_space(text@.take(at as int)),
        decreases at,
    {
        assert(text@.take(at as int).drop_last() =~= text@.take(at as int - 1));
        at -= 1;
    }
    len - at
}

/// Whether `line` holds nothing but white space.
pub fn is_blank(line: &str) -> (is: bool)
    ensures
        is == blank(line@),
{
    let text: Vec<char> = chars_of(line);
    proof {
        lemma_leading_space(text@);
    }
    count_leading_space(text.as_slice()) == text.len()
}

/// `line` without the white space at its start and at its end.
pub fn trim(line: &str) -> (short: String)
    ensures
        short@ == trimmed(line@),
{
    let text: Vec<char> = chars_of(line);
    let lead: usize = count_leading_space(text.as_slice());
    proof {
        lemma_leading_space(text@);
        lemma_trailing_space(text@);
    }
    if lead == text.len() {
        String::new()
    } else {
        let trail: usize = count_trailing_space(text.as_slice());
        String::from_str(line.substring_char(lead, text.len() - trail))
    }
}

/// The lines of `comment`.
pub fn split_lines(comment: &str) -> (lines: Vec<String>)
    ensures
        texts(lines@) == split(comment@, '\n'),
{
    let text: Vec<char> = chars_of(comment);
    let mut lines: Vec<String> = Vec::new();
    let mut start: usize = 0;
    let mut i: usize = 0;
    assert(comment@.subrange(0, 0) =~= Seq::<char>::empty());
    assert(split(comment@.take(0), '\n') =~= texts(lines@).push(Seq::<char>::empty()));
    while i < text.len()
        invariant
            start <= i <= text@.len(),
            text@ == comment@,
            split(comment@.take(i as int), '\n') == texts(lines@).push(
                comment@.subrange(start as int, i as int),
            ),
        decreases text@.len() - i,
    {
        let ghost before = texts(lines@);
        let ghost piece = comment@.subrange(start as int, i as int);
        assert(comment@.take(i as int + 1).drop_last() =~= comment@.take(i as int));
        assert(before.push(piece).drop_last() =~= before);
        if text[i] == '\n' {
            lines.push(String::from_str(comment.substring_char(start, i)));
            start = i + 1;
            assert(texts(lines@) =~= before.push(piece));
            assert(comment@.subrange(start as int, i as int + 1) =~= Seq::<char>::empty());
        } else {
            assert(comment@.subrange(start as int, i as int + 1) =~= piece.push(
                comment@[i as int],
            ));
        }
        i += 1;
    }
    let ghost before = texts(lines@);
    assert(comment@.take(text@.len() as int) =~= comment@);
    lines.push(String::from_str(comment.substring_char(start, text.len())));
    assert(texts(lines@) =~= before.push(comment@.subrange(start as int, text@.len() as int)));
    lines
}

/// The lines of the documentation comment `comment`, each without the
/// white space character that it starts with, if it starts with one.
pub fn parse_doc_comment(comment: &str) -> (lines: Vec<String>)
    ensures
        lines@.len() == split(comment@, '\n').len(),
        forall|i: int|
            0 <= i < lines@.len() ==> (#[trigger] lines@[i])@ == without_first_space(
                split(comment@, '\n')[i],
            ),
{
    let raw: Vec<String> = split_lines(comment);
    let mut lines: Vec<String> = Vec::new();
    let mut i: usize = 0;
    while i < raw.len()
        invariant
            i <= raw@.len(),
            lines@.len() == i,
            texts(raw@) == split(comment@, '\n'),
            forall|k: int|
                0 <= k < i ==> (#[trigger] lines@[k])@ == without_first_space(
                    split(comment@, '\n')[k],
                ),
        decreases raw@.len() - i,
    {
        let line: &str = raw[i].as_str();
        assert(line@ == texts(raw@)[i as int]);
        let len: usize = line.unicode_len();
        if len > 0 && char_is_whitespace(line.get_char(0)) {
            lines.push(String::from_str(line.substring_char(1, len)));
            assert(line@.subrange(1, len as int) =~= line@.drop_first());
        } else {
            lines.push(String::from_str(line));
        }
        i += 1;
    }
    lines
}

/// Where a walk through the lines of a documentation comment stands.
#[derive(Clone, Copy, PartialEq, Eq, Structural, Debug)]
pub enum DocCommentSectionsParseState {
    /// In the summary: no empty line was seen yet.
    Summary,
    /// Behind the summary: only empty lines were seen since the summary.
    EmptyLines,
    /// In the details.
    Details,
}

/// The step that the walk takes at the line `line`: the state behind the
/// line, and what the line gives, if anything.
///
/// A line of the summary is given as such. The empty line that ends the
/// summary is given as an empty line. The first line behind it that is
/// not empty starts the details, and every line of the details is given as
/// it is. A further empty line before the details gives nothing.
pub open spec fn section_step(state: DocCommentSectionsParseState, line: Seq<char>) -> (
    DocCommentSectionsParseState,
    Option<(bool, Seq<char>)>,
) {
    match state {
        DocCommentSectionsParseState::Summary => if blank(line) {
            (DocCommentSectionsParseState::EmptyLines, Some((false, Seq::empty())))
        } else {
            (DocCommentSectionsParseState::Summary, Some((true, line)))
        },
        DocCommentSectionsParseState::EmptyLines => if !blank(line) {
            (DocCommentSectionsParseState::Details, Some((false, line)))
        } else {
            (DocCommentSectionsParseState::EmptyLines, None)
        },
        DocCommentSectionsParseState::Details => (
            DocCommentSectionsParseState::Details,
            Some((false, line)),
        ),
    }
}

/// Takes the step of the walk at `line`: moves `state` on and returns
/// what the line gives, marked with whether it belongs to the summary.
pub fn parse_doc_comment_sections(state: &mut DocCommentSectionsParseState, line: String) -> (part:
    Option<(bool, String)>)
    ensures
        *final(state) == section_step(*old(state), line@).0,
        match section_step(*old(state), line@).1 {
            Some((is_summary, text)) => part.is_some() && part.unwrap().0 == is_summary
                && part.unwrap().1@ == text,
            None => part.is_none(),
        },
{
    match *state {
        DocCommentSectionsParseState::Summary => {
            if is_blank(line.as_str()) {
                *state = DocCommentSectionsParseState::EmptyLines;
                Some((false, String::new()))
            } else {
                Some((true, line))
            }
        },
        DocCommentSectionsParseState::EmptyLines => {
            if !is_blank(line.as_str()) {
                *state = DocCommentSectionsParseState::Details;
                Some((false, line))
            } else {
                None
            }
        },
        DocCommentSectionsParseState::Details => Some((false, line)),
    }
}

/// The number of blank lines at the start of `lines`.
pub open spec fn leading_blank(lines: Seq<Seq<char>>) -> nat
    decreases lines.len(),
{
    if lines.len() > 0 && blank(lines[0]) {
        1 + leading_blank(lines.drop_first())
    } else {
        0
    }
}

/// The number of lines at the start of `lines` that are not blank.
pub open spec fn leading_filled(lines: Seq<Seq<char>>) -> nat
    decreases lines.len(),
{
    if lines.len() > 0 && !blank(lines[0]) {
        1 + leading_filled(lines.drop_first())
    } else {
        0
    }
}

/// Each of `lines` trimmed.
pub open spec fn all_trimmed(lines: Seq<Seq<char>>) -> Seq<Seq<char>> {
    Seq::new(lines.len(), |i: int| trimmed(lines[i]))
}

/// The lines of the summary: behind the blank lines at the start of
/// `lines`, the lines up to the next blank line.
pub open spec fn summary_lines(lines: Seq<Seq<char>>) -> Seq<Seq<char>> {
    let body = lines.skip(leading_blank(lines) as int);
    body.take(leading_filled(body) as int)
}

/// The lines of the details: all that follows the blank line behind the
/// summary, if a line that is not blank follows it directly.
pub open spec fn details_lines(lines: Seq<Seq<char>>) -> Seq<Seq<char>> {
    let body = lines.skip(leading_blank(lines) as int);
    let after = body.skip(leading_filled(body) as int);
    if after.len() >= 2 && !blank(after[1]) {
        after.skip(1)
    } else {
        Seq::empty()
    }
}

/// The summary of a documentation comment with the lines `lines`: the
/// lines of the summary, trimmed, with a space between them.
pub open spec fn summary_text(lines: Seq<Seq<char>>) -> Seq<char> {
    joined(all_trimmed(summary_lines(lines)), seq![' '])
}

/// The details of a documentation comment with the lines `lines`: the
/// lines of the details, each on a line of its own.
pub open spec fn details_text(lines: Seq<Seq<char>>) -> Seq<char> {
    joined(details_lines(lines), seq!['\n'])
}

/// The counts of leading lines stay within the lines.
pub proof fn lemma_leading_lines(lines: Seq<Seq<char>>)
    ensures
        leading_blank(lines) <= lines.len(),
        leading_filled(lines) <= lines.len(),
    decreases lines.len(),
{
    if lines.len() > 0 {
        lemma_leading_lines(lines.drop_first());
    }
}

/// Puts `piece` behind `text`, with `sep` between the two unless `piece`
/// is the first one.
fn append_piece(
    text: &mut String,
    sep: &str,
    piece: &str,
    first: bool,
    Ghost(pieces): Ghost<Seq<Seq<char>>>,
)
    requires
        old(text)@ == joined(pieces, sep@),
        first == (pieces.len() == 0),
    ensures
        final(text)@ == joined(pieces.push(piece@), sep@),
{
    proof {
        assert(pieces.push(piece@).drop_last() =~= pieces);
    }
    if !first {
        text.append(sep);
    }
    text.append(piece);
    proof {
        if first {
            assert(Seq::<char>::empty() + piece@ =~= piece@);
        }
    }
}

/// The summary and the details of a documentation comment with the lines
/// `lines`.
///
/// Blank lines at the start are passed over. The summary is made of the
/// lines up to the next blank line, trimmed and put together with spaces.
/// The details are made of the lines behind that blank line, as they are,
/// if the first of them is not blank; there are no details if it is.
pub fn doc_sections(lines: &Vec<String>) -> (sections: (String, String))
    ensures
        sections.0@ == summary_text(texts(lines@)),
        sections.1@ == details_text(texts(lines@)),
{
    let ghost all = texts(lines@);
    let space: &'static str = " ";
    let line_break: &'static str = "\n";
    proof {
        reveal_strlit(" ");
        reveal_strlit("\n");
        assert(space@ =~= seq![' ']);
        assert(line_break@ =~= seq!['\n']);
    }
    let mut i: usize = 0;
    assert(all.skip(0) =~= all);
    while i < lines.len() && is_blank(lines[i].as_str())
        invariant
            i <= lines@.len(),
            all == texts(lines@),
            leading_blank(all) == i + leading_blank(all.skip(i as int)),
        decreases lines@.len() - i,
    {
        assert(all.skip(i as int).drop_first() =~= all.skip(i as int + 1));
        i += 1;
    }
    let ghost body = all.skip(i as int);
    let skipped: usize = i;
    assert(leading_blank(all) == skipped) by {
        if i < lines@.len() {
            assert(all.skip(i as int)[0] == all[i as int]);
        }
    }

    let mut state = DocCommentSectionsParseState::Summary;
    let mut summary: String = String::new();
    let mut taken: usize = 0;
    let mut summary_ended: bool = false;
    assert(body.skip(0) =~= body);
    assert(all_trimmed(body.take(0)) =~= Seq::<Seq<char>>::empty());
    while i < lines.len() && !summary_ended
        invariant
            skipped <= i <= lines@.len(),
            i == skipped + taken + if summary_ended {
                1nat
            } else {
                0nat
            },
            all == texts(lines@),
            body == all.skip(skipped as int),
            !summary_ended ==> state == DocCommentSectionsParseState::Summary,
            summary_ended ==> state == DocCommentSectionsParseState::EmptyLines,
            !summary_ended ==> leading_filled(body) == taken + leading_filled(
                body.skip(taken as int),
            ),
            summary_ended ==> leading_filled(body) == taken && taken < body.len(),
            space@ == seq![' '],
            summary@ == joined(all_trimmed(body.take(taken as int)), seq![' ']),
        decreases lines@.len() - i,
    {
        let line: String = lines[i].clone();
        assert(line@ == all[i as int]);
        assert(body.skip(taken as int)[0] == all[i as int]);
        assert(body.skip(taken as int).drop_first() =~= body.skip(taken as int + 1));
        match parse_doc_comment_sections(&mut state, line) {
            Some((true, text)) => {
                let piece: String = trim(text.as_str());
                append_piece(
                    &mut summary,
                    space,
                    piece.as_str(),
                    taken == 0,
                    Ghost(all_trimmed(body.take(taken as int))),
                );
                assert(all_trimmed(body.take(taken as int)).push(piece@) =~= all_trimmed(
                    body.take(taken as int + 1),
                ));
                taken += 1;
            },
            _ => {
                summary_ended = true;
            },
        }
        i += 1;
    }
    proof {
        lemma_leading_lines(body);
        if !summary_ended {
            assert(body.skip(taken as int).len() == 0);
        }
    }
    assert(summary@ == summary_text(all));

    let ghost after = body.skip(taken as int);
    let mut details: String = String::new();
    let mut held: usize = 0;
    let mut details_ended: bool = false;
    let details_start: usize = i;
    let ghost mut kept: Seq<Seq<char>> = Seq::empty();
    while i < lines.len() && !details_ended
        invariant
            details_start <= i <= lines@.len(),
            i == details_start + held,
            all == texts(lines@),
            body == all.skip(skipped as int),
            after == body.skip(taken as int),
            summary_ended ==> details_start == skipped + taken + 1 && (held == 0 ==> state
                == DocCommentSectionsParseState::EmptyLines),
            !summary_ended ==> details_start == lines@.len(),
            held > 0 ==> state == DocCommentSectionsParseState::Details && !blank(after[1]),
            details_ended ==> held == 0 && after.len() >= 2 && blank(after[1]),
            kept.len() == held,
            forall|j: int| 0 <= j < held ==> #[trigger] kept[j] == after[1 + j],
            line_break@ == seq!['\n'],
            details@ == joined(kept, seq!['\n']),
        decreases lines@.len() - i + if details_ended {
            0nat
        } else {
            1nat
        },
    {
        let line: String = lines[i].clone();
        assert(line@ == all[i as int]);
        assert(after[1 + held as int] == all[i as int]);
        match parse_doc_comment_sections(&mut state, line) {
            Some((_, text)) => {
                append_piece(&mut details, line_break, text.as_str(), held == 0, Ghost(kept));
                proof {
                    kept = kept.push(text@);
                }
                held += 1;
                i += 1;
            },
            None => {
                details_ended = true;
            },
        }
    }
    proof {
        if held > 0 {
            assert(kept =~= after.skip(1));
        } else {
            assert(kept =~= Seq::<Seq<char>>::empty());
        }
    }
    assert(details@ == details_text(all));
    (summary, details)
}

} // verus!
