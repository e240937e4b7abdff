//! Placeholders in format strings: a name between a left and a right
//! delimiter, such as `{summary}`.

use core::ops::Range;
use vstd::prelude::*;
use vstd::string::StrSliceExecFns;
use vstd::string::StringExecFns;
use vstd::utf8::encode_utf8;

verus! {

/// Whether a run of `n` delimiters delimits: there is at least one, and
/// their number is odd. An even number of delimiters is an escape.
pub open spec fn delimits(n: nat) -> bool {
    n > 0 && n % 2 != 0
}

/// Whether `pattern` stands in `text` at position `at`.
pub open spec fn occurs_at(text: Seq<char>, pattern: Seq<char>, at: int) -> bool {
    0 <= at && at + pattern.len() <= text.len() && text.subrange(at, at + pattern.len())
        == pattern
}

/// The number of characters equal to `delim` that stand directly before
/// position `end` of `text`, not counting any before position `floor`.
pub open spec fn run_before(text: Seq<char>, delim: char, floor: int, end: int) -> nat
    decreases end - floor,
{
    if 0 <= floor < end <= text.len() && text[end - 1] == delim {
        1 + run_before(text, delim, floor, end - 1)
    } else {
        0
    }
}

/// The number of characters equal to `delim` that stand in `text` from
/// position `start` on.
pub open spec fn run_after(text: Seq<char>, delim: char, start: int) -> nat
    decreases text.len() - start,
{
    if 0 <= start < text.len() && text[start] == delim {
        1 + run_after(text, delim, start + 1)
    } else {
        0
    }
}

/// The first delimited placeholder in `text` at or behind position `at`,
/// as the positions of its left delimiter and of the character behind its
/// right delimiter.
///
/// The occurrences of `pattern` are taken from left to right, and none of
/// them overlaps one taken before. An occurrence is delimited if an odd
/// number of left delimiters stands directly before it, and an odd number
/// of right delimiters directly behind it. Left delimiters are counted
/// back to `floor`: the start of the search, or the end of the occurrence
/// that was taken last.
pub open spec fn find_span(
    text: Seq<char>,
    pattern: Seq<char>,
    left_delim: char,
    right_delim: char,
    floor: int,
    at: int,
) -> Option<(int, int)>
    decreases text.len() - at,
{
    if pattern.len() == 0 || at < 0 || at + pattern.len() > text.len() {
        None
    } else if occurs_at(text, pattern, at) {
        if delimits(run_before(text, left_delim, floor, at)) && delimits(
            run_after(text, right_delim, at + pattern.len()),
        ) {
            Some((at - 1, at + pattern.len() + 1))
        } else {
            find_span(
                text,
                pattern,
                left_delim,
                right_delim,
                at + pattern.len(),
                at + pattern.len(),
            )
        }
    } else {
        find_span(text, pattern, left_delim, right_delim, floor, at + 1)
    }
}

/// The number of bytes that the first `chars` characters of `text` take
/// in UTF-8.
pub open spec fn byte_offset(text: Seq<char>, chars: int) -> nat {
    encode_utf8(text.take(chars)).len()
}

/// `text` with every delimited placeholder behind position `from`
/// replaced by `with`, from left to right. The search goes on behind each
/// replacement, so what was put in is not searched.
pub open spec fn replaced(
    text: Seq<char>,
    pattern: Seq<char>,
    with: Seq<char>,
    left_delim: char,
    right_delim: char,
    from: int,
) -> Seq<char>
    decreases text.len() - from,
{
    match find_span(text, pattern, left_delim, right_delim, from, from) {
        Some((start, end)) => if from <= start < end <= text.len() {
            replaced(
                text.take(start) + with + text.skip(end),
                pattern,
                with,
                left_delim,
                right_delim,
                start + with.len(),
            )
        } else {
            text
        },
        None => text,
    }
}

/// A span that the search finds lies behind the floor of the search and
/// within the text, and holds the two delimiters and the placeholder.
pub proof fn lemma_find_span_bounds(
    text: Seq<char>,
    pattern: Seq<char>,
    left_delim: char,
    right_delim: char,
    floor: int,
    at: int,
)
    requires
        0 <= floor <= at,
    ensures
        match find_span(text, pattern, left_delim, right_delim, floor, at) {
            Some((start, end)) => {
                &&& floor <= start
                &&& end <= text.len()
                &&& end - start == pattern.len() + 2
                &&& text[start] == left_delim
                &&& text[end - 1] == right_delim
                &&& text.subrange(start + 1, end - 1) == pattern
            },
            None => true,
        },
    decreases text.len() - at,
{
    if pattern.len() == 0 || at + pattern.len() > text.len() {
    } else if occurs_at(text, pattern, at) {
        if delimits(run_before(text, left_delim, floor, at)) && delimits(
            run_after(text, right_delim, at + pattern.len()),
        ) {
        } else {
            lemma_find_span_bounds(
                text,
                pattern,
                left_delim,
                right_delim,
                at + pattern.len(),
                at + pattern.len(),
            );
        }
    } else {
        lemma_find_span_bounds(text, pattern, left_delim, right_delim, floor, at + 1);
    }
}

/// Whether a run of `n` delimiters delimits: there is at least one, and
/// their number is odd.
pub fn is_delimited(n: usize) -> (delimited: bool)
    ensures
        delimited == delimits(n as nat),
{
    n > 0 && (n % 2 != 0)
}

/// The characters of `s`.
pub fn chars_of(s: &str) -> (chars: Vec<char>)
    ensures
        chars@ == s@,
{
    let len: usize = s.unicode_len();
    let mut chars: Vec<char> = Vec::new();
    let mut i: usize = 0;
    while i < len
        invariant
            i <= len,
            len == s@.len(),
            chars@ == s@.take(i as int),
        decreases len - i,
    {
        chars.push(s.get_char(i));
        assert(s@.take(i as int).push(s@[i as int]) =~= s@.take(i as int + 1));
        i += 1;
    }
    assert(s@.take(len as int) =~= s@);
    chars
}

/// Whether `pattern` stands in `text` at position `at`.
pub fn matches_at(text: &[char], pattern: &[char], at: usize) -> (found: bool)
    requires
        at + pattern@.len() <= text@.len(),
    ensures
        found == occurs_at(text@, pattern@, at as int),
{
    let mut k: usize = 0;
    let text_len: usize = text.len();
    while k < pattern.len()
        invariant
            k <= pattern@.len(),
            text_len == text@.len(),
            at + pattern@.len() <= text@.len(),
            forall|j: int| 0 <= j < k ==> text@[at + j] == pattern@[j],
        decreases pattern@.len() - k,
    {
        if text[at + k] != pattern[k] {
            assert(text@.subrange(at as int, at + pattern@.len())[k as int] != pattern@[k as int]);
            return false;
        }
        k += 1;
    }
    assert(text@.subrange(at as int, at + pattern@.len()) =~= pattern@);
    true
}

/// The number of characters equal to `delim` directly before position
/// `end` of `text`, not counting any before position `floor`.
pub fn count_before(text: &[char], delim: char, floor: usize, end: usize) -> (count: usize)
    requires
        floor <= end <= text@.len(),
    ensures
        count == run_before(text@, delim, floor as int, end as int),
{
    let mut at: usize = end;
    while at > floor && text[at - 1] == delim
        invariant
            floor <= at <= end <= text@.len(),
            run_before(text@, delim, floor as int, end as int) == (end - at) + run_before(
                text@,
                delim,
                floor as int,
                at as int,
            ),
        decreases at,
    {
        at -= 1;
    }
    end - at
}

/// The number of characters equal to `delim` in `text` from position
/// `start` on.
pub fn count_after(text: &[char], delim: char, start: usize) -> (count: usize)
    requires
        start <= text@.len(),
    ensures
        count == run_after(text@, delim, start as int),
{
    let mut at: usize = start;
    while at < text.len() && text[at] == delim
        invariant
            start <= at <= text@.len(),
            run_after(text@, delim, start as int) == (at - start) + run_after(
                text@,
                delim,
                at as int,
            ),
        decreases text@.len() - at,
    {
        at += 1;
    }
    at - start
}

/// The first delimited placeholder in `text` at or behind position
/// `from`, as the positions of its left delimiter and of the character
/// behind its right delimiter.
pub fn find_placeholder(
    text: &[char],
    pattern: &[char],
    left_delim: char,
    right_delim: char,
    from: usize,
) -> (span: Option<(usize, usize)>)
    requires
        pattern@.len() > 0,
        from <= text@.len(),
    ensures
        match find_span(text@, pattern@, left_delim, right_delim, from as int, from as int) {
            Some((start, end)) => span.is_some() && span.unwrap().0 == start && span.unwrap().1
                == end && from <= start < end <= text@.len(),
            None => span.is_none(),
        },
{
    let mut floor: usize = from;
    let mut at: usize = from;
    while pattern.len() <= text.len() - at
        invariant
            pattern@.len() > 0,
            from <= floor <= at <= text@.len(),
            find_span(text@, pattern@, left_delim, right_delim, from as int, from as int)
                == find_span(text@, pattern@, left_delim, right_delim, floor as int, at as int),
        decreases text@.len() - at,
    {
        if matches_at(text, pattern, at) {
            let end: usize = at + pattern.len();
            let is_left_delim: bool = is_delimited(count_before(text, left_delim, floor, at));
            let is_right_delim: bool = is_delimited(count_after(text, right_delim, end));
            if is_left_delim && is_right_delim {
                proof {
                    lemma_find_span_bounds(
                        text@,
                        pattern@,
                        left_delim,
                        right_delim,
                        floor as int,
                        at as int,
                    );
                }
                return Some((at - 1, end + 1));
            }
            floor = end;
            at = end;
        } else {
            at += 1;
        }
    }
    None
}

/// A search for one placeholder between two delimiters.
pub struct StrPlaceholderRangeIter<'a> {
    placeholder: &'a str,
    left_delim: char,
    right_delim: char,
}

impl<'a> StrPlaceholderRangeIter<'a> {
    /// The name that is searched for.
    pub closed spec fn placeholder(self) -> Seq<char> {
        self.placeholder@
    }

    /// The delimiter before the name.
    pub closed spec fn left_delim(self) -> char {
        self.left_delim
    }

    /// The delimiter behind the name.
    pub closed spec fn right_delim(self) -> char {
        self.right_delim
    }

    /// A search for `placeholder` between `left_delim` and `right_delim`.
    pub fn new(placeholder: &'a str, left_delim: char, right_delim: char) -> (iter: Self)
        ensures
            iter.placeholder() == placeholder@,
            iter.left_delim() == left_delim,
            iter.right_delim() == right_delim,
    {
        StrPlaceholderRangeIter { placeholder, left_delim, right_delim }
    }

    /// The bytes of `string` that hold its first delimited placeholder
    /// with one delimiter on each side, or `None` if it has none.
    pub fn next_range(&self, string: &str) -> (range: Option<Range<usize>>)
        requires
            self.placeholder().len() > 0,
        ensures
            match find_span(
                string@,
                self.placeholder(),
                self.left_delim(),
                self.right_delim(),
                0,
                0,
            ) {
                Some((start, end)) => range.is_some() && range.unwrap().start == byte_offset(
                    string@,
                    start,
                ) && range.unwrap().end == byte_offset(string@, end),
                None => range.is_none(),
            },
    {
        let text: Vec<char> = chars_of(string);
        let pattern: Vec<char> = chars_of(self.placeholder);
        match find_placeholder(
            text.as_slice(),
            pattern.as_slice(),
            self.left_delim,
            self.right_delim,
            0,
        ) {
            Some((start, end)) => {
                let start_byte: usize = string.substring_char(0, start).as_bytes().len();
                let end_byte: usize = string.substring_char(0, end).as_bytes().len();
                Some(start_byte..end_byte)
            },
            None => None,
        }
    }
}

/// The bytes of `string` that hold its first delimited `placeholder` with
/// one delimiter on each side, or `None` if it has none.
///
/// A placeholder is delimited if the number of `left_delim` characters
/// directly before it is odd, and so is the number of `right_delim`
/// characters directly behind it.
pub fn first_placeholder_range(
    string: &str,
    placeholder: &str,
    left_delim: char,
    right_delim: char,
) -> (range: Option<Range<usize>>)
    requires
        placeholder@.len() > 0,
    ensures
        match find_span(string@, placeholder@, left_delim, right_delim, 0, 0) {
            Some((start, end)) => range.is_some() && range.unwrap().start == byte_offset(
                string@,
                start,
            ) && range.unwrap().end == byte_offset(string@, end),
            None => range.is_none(),
        },
{
    StrPlaceholderRangeIter::new(placeholder, left_delim, right_delim).next_range(string)
}

/// Replaces every delimited `placeholder` in `string`, with one delimiter
/// on each side of it, by `replace_with`.
pub fn replace_all_placeholders(
    string: &mut String,
    placeholder: &str,
    replace_with: &str,
    left_delim: char,
    right_delim: char,
)
    requires
        placeholder@.len() > 0,
    ensures
        final(string)@ == replaced(
            old(string)@,
            placeholder@,
            replace_with@,
            left_delim,
            right_delim,
            0,
        ),
{
    let pattern: Vec<char> = chars_of(placeholder);
    let mut from: usize = 0;
    loop
        invariant
            pattern@ == placeholder@,
            pattern@.len() > 0,
            from <= string@.len(),
            replaced(old(string)@, placeholder@, replace_with@, left_delim, right_delim, 0)
                == replaced(
                string@,
                placeholder@,
                replace_with@,
                left_delim,
                right_delim,
                from as int,
            ),
        ensures
            string@ == replaced(
                old(string)@,
                placeholder@,
                replace_with@,
                left_delim,
                right_delim,
                0,
            ),
        decreases string@.len() - from,
    {
        let text: Vec<char> = chars_of(string.as_str());
        match find_placeholder(text.as_slice(), pattern.as_slice(), left_delim, right_delim, from) {
            Some((start, end)) => {
                let mut next: String = String::from_str(string.as_str().substring_char(0, start));
                next.append(replace_with);
                next.append(string.as_str().substring_char(end, text.len()));
                assert(next@ =~= string@.take(start as int) + replace_with@ + string@.skip(
                    end as int,
                ));
                // The search goes on behind what was put in.
                from = next.as_str().unicode_len() - (text.len() - end);
                *string = next;
            },
            None => {
                break ;
            },
        }
    }
}

} // verus!
