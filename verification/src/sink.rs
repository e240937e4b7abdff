use vstd::prelude::*;
use vstd::string::StrSliceExecFns;
use vstd::string::StringExecFns;

verus! {

/// A text sink refused a write because it was out of room.
#[derive(Clone, Copy, PartialEq, Eq, Structural, Debug)]
pub struct FmtError;

/// A text sink for rendered errors, with or without a limit on the number
/// of characters it takes.
///
/// A write either appends the whole piece of text or, when the piece does
/// not fit into the room that is left, fails and leaves the sink as it
/// was.
#[derive(Debug)]
pub struct TextSink {
    text: String,
    room: Option<usize>,
}

impl View for TextSink {
    type V = Seq<char>;

    /// The text written so far.
    closed spec fn view(&self) -> Seq<char> {
        self.text@
    }
}

impl TextSink {
    /// The number of characters the sink still takes, or `None` if it has
    /// no limit.
    pub closed spec fn room(self) -> Option<nat> {
        match self.room {
            Some(n) => Some(n as nat),
            None => None,
        }
    }

    /// Whether a piece of `len` characters fits.
    pub open spec fn fits(self, len: nat) -> bool {
        match self.room() {
            Some(n) => len <= n,
            None => true,
        }
    }

    /// The room left after writing `len` characters that fit.
    pub open spec fn room_after(self, len: nat) -> Option<nat> {
        match self.room() {
            Some(n) => Some((n - len) as nat),
            None => None,
        }
    }

    /// An empty sink without a limit.
    pub fn new() -> (sink: TextSink)
        ensures
            sink@ == Seq::<char>::empty(),
            sink.room().is_none(),
    {
        TextSink { text: String::new(), room: None }
    }

    /// An empty sink that takes at most `limit` characters.
    pub fn with_limit(limit: usize) -> (sink: TextSink)
        ensures
            sink@ == Seq::<char>::empty(),
            sink.room() == Some(limit as nat),
    {
        TextSink { text: String::new(), room: Some(limit) }
    }

    /// Appends `s` if it fits, and fails without writing anything if it
    /// does not.
    pub fn write_str(&mut self, s: &str) -> (res: Result<(), FmtError>)
        ensures
            res.is_ok() == old(self).fits(s@.len()),
            res.is_ok() ==> final(self)@ == old(self)@ + s@ && final(self).room()
                == old(self).room_after(s@.len()),
            res.is_err() ==> final(self)@ == old(self)@ && final(self).room() == old(self).room(),
            wrote(*old(self), *final(self), s@, res),
    {
        match self.room {
            Some(room) => {
                let len: usize = s.unicode_len();
                if len > room {
                    return Err(FmtError);
                }
                self.room = Some(room - len);
            },
            None => {},
        }
        self.text.append(s);
        Ok(())
    }

    /// The text written so far.
    pub fn as_str(&self) -> (text: &str)
        ensures
            text@ == self@,
    {
        self.text.as_str()
    }

    /// Gives up the sink for the text written to it.
    pub fn into_string(self) -> (text: String)
        ensures
            text@ == self@,
    {
        self.text
    }
}

/// What a fallible write of `text` does to a sink: `before` is the sink
/// before the write, `after` the sink behind it and `res` what the write
/// returned.
///
/// The write succeeds exactly if all of `text` fits, and then all of it
/// was appended. A failed write may have appended a part of `text` from its
/// start, and has used up room for no more than that part.
pub open spec fn wrote(
    before: TextSink,
    after: TextSink,
    text: Seq<char>,
    res: Result<(), FmtError>,
) -> bool {
    &&& res.is_ok() == before.fits(text.len())
    &&& res.is_ok() ==> after@ == before@ + text
    &&& before@.is_prefix_of(after@)
    &&& after@.is_prefix_of(before@ + text)
    &&& after.room() == before.room_after((after@.len() - before@.len()) as nat)
}

/// A write that follows a successful one extends what the two wrote
/// together.
pub proof fn lemma_wrote_then(
    before: TextSink,
    between: TextSink,
    after: TextSink,
    first: Seq<char>,
    second: Seq<char>,
    res: Result<(), FmtError>,
)
    requires
        wrote(before, between, first, Ok(())),
        wrote(between, after, second, res),
    ensures
        wrote(before, after, first + second, res),
{
    assert((before@ + first) + second =~= before@ + (first + second));
    if res.is_ok() {
        assert(after@ =~= before@ + (first + second));
    }
}

/// A failed write is also a failed write of any longer text.
pub proof fn lemma_wrote_failed(
    before: TextSink,
    after: TextSink,
    text: Seq<char>,
    more: Seq<char>,
    res: Result<(), FmtError>,
)
    requires
        wrote(before, after, text, res),
        res.is_err(),
    ensures
        wrote(before, after, text + more, res),
{
    assert((before@ + text) + more =~= before@ + (text + more));
    assert((before@ + text).is_prefix_of((before@ + text) + more));
}

} // verus!
