use crate::sink::{lemma_wrote_failed, lemma_wrote_then, wrote, FmtError, TextSink};
use crate::ErrorCode;
use vstd::prelude::*;
use vstd::std_specs::cmp::PartialEqSpecImpl;

verus! {

/// The identity of an error category: a number that no two categories of
/// a program share. The number 0 belongs to [`Unused`].
pub type CategoryId = u16;

/// The number of slots in a category's link table.
pub const MAX_LINKS: usize = 6;

/// What identifies a category: a number of its own.
pub trait CategoryIdentity {
    /// The number of this category, different from that of every other
    /// category and from 0.
    const ID: CategoryId;
}

/// A closed set of error codes that can be chained with codes of the
/// categories it links to.
///
/// `L0` to `L5` are the categories whose errors may be the cause of an
/// error of this category; a slot that is not needed holds [`Unused`].
/// `VARIANTS` gives the text under which each code is rendered.
pub trait ErrorCategory: CategoryIdentity + Copy + Into<ErrorCode> + From<ErrorCode> {
    /// The name of this category in rendered errors.
    const NAME: &'static str;

    /// The text of each code of this category.
    const VARIANTS: &'static [(ErrorCode, &'static str)];

    /// Linked category 0.
    type L0: CategoryIdentity;

    /// Linked category 1.
    type L1: CategoryIdentity;

    /// Linked category 2.
    type L2: CategoryIdentity;

    /// Linked category 3.
    type L3: CategoryIdentity;

    /// Linked category 4.
    type L4: CategoryIdentity;

    /// Linked category 5.
    type L5: CategoryIdentity;
}

/// The category that fills the link slots a category does not use. It has
/// no codes and no values.
#[derive(Debug, Clone, Copy)]
pub enum Unused {
    #[allow(missing_docs)]
    Never(core::convert::Infallible),
}

impl CategoryIdentity for Unused {
    const ID: CategoryId = 0;
}

/// The number of [`Unused`] is 0.
pub proof fn lemma_unused_id()
    ensures
        <Unused as CategoryIdentity>::ID == 0,
{
}

/// A handle to a category: what is left of the category's type at run
/// time. Two handles are equal if they stand for the same category.
#[derive(Debug, Clone, Copy)]
pub struct ErrorCategoryHandle {
    pub id: CategoryId,
    pub name: &'static str,
}

impl ErrorCategoryHandle {
    /// The handle of category `C`.
    pub open spec fn of<C: ErrorCategory>() -> ErrorCategoryHandle {
        ErrorCategoryHandle { id: C::ID, name: C::NAME }
    }

    /// The handle of category `C`.
    pub fn new<C: ErrorCategory>() -> (handle: ErrorCategoryHandle)
        ensures
            handle == Self::of::<C>(),
    {
        ErrorCategoryHandle { id: C::ID, name: C::NAME }
    }

    /// The name of the category.
    pub fn name(&self) -> (name: &'static str)
        ensures
            name == self.name,
    {
        self.name
    }

    /// Whether this is the handle of category `C`.
    pub fn is_handle_of<C: ErrorCategory>(&self) -> (is: bool)
        ensures
            is == (self.id == C::ID),
    {
        self.id == C::ID
    }
}

impl PartialEq for ErrorCategoryHandle {
    fn eq(&self, other: &ErrorCategoryHandle) -> (equal: bool) {
        self.id == other.id
    }
}

impl Eq for ErrorCategoryHandle {

}

impl PartialEqSpecImpl for ErrorCategoryHandle {
    open spec fn obeys_eq_spec() -> bool {
        true
    }

    open spec fn eq_spec(&self, other: &ErrorCategoryHandle) -> bool {
        self.id == other.id
    }
}

/// What is known of a category at run time: its handle, the numbers of
/// the categories in its link table and the texts of its codes.
///
/// A formatter stands for its category wherever the category's type is no
/// longer known. It renders a code of the category, and it leads from the
/// category to a linked one by the index of a link.
#[derive(Debug, Clone, Copy, PartialEq, Eq)]
pub struct ErrorCodeFormatter {
    pub handle: ErrorCategoryHandle,
    pub links: [CategoryId; 6],
    pub variants: &'static [(ErrorCode, &'static str)],
}

/// A formatter handed out as the next one in a chain.
#[derive(Debug, Clone, Copy, PartialEq, Eq)]
pub struct ErrorCodeFormatterVal(pub ErrorCodeFormatter);

impl ErrorCodeFormatterVal {
    /// Wraps `func`.
    pub fn new(func: ErrorCodeFormatter) -> (val: ErrorCodeFormatterVal)
        ensures
            val.0 == func,
    {
        ErrorCodeFormatterVal(func)
    }

    /// The wrapped formatter.
    pub fn into(self) -> (func: ErrorCodeFormatter)
        ensures
            func == self.0,
    {
        self.0
    }
}

/// The link table of category `C`: the numbers of `L0` to `L5`.
pub open spec fn links_of<C: ErrorCategory>() -> Seq<CategoryId> {
    seq![
        <C::L0 as CategoryIdentity>::ID,
        <C::L1 as CategoryIdentity>::ID,
        <C::L2 as CategoryIdentity>::ID,
        <C::L3 as CategoryIdentity>::ID,
        <C::L4 as CategoryIdentity>::ID,
        <C::L5 as CategoryIdentity>::ID,
    ]
}

/// The first formatter in `categories` whose category has the number `id`.
pub open spec fn find_category(categories: Seq<ErrorCodeFormatter>, id: CategoryId) -> Option<
    ErrorCodeFormatter,
>
    decreases categories.len(),
{
    if categories.len() == 0 {
        None
    } else if categories[0].handle.id == id {
        Some(categories[0])
    } else {
        find_category(categories.drop_first(), id)
    }
}

/// The text of `code` in `variants`: that of the first entry for the code,
/// and no text if there is no entry.
pub open spec fn variant_text(variants: Seq<(ErrorCode, &'static str)>, code: ErrorCode) -> Seq<
    char,
>
    decreases variants.len(),
{
    if variants.len() == 0 {
        Seq::empty()
    } else if variants[0].0 == code {
        variants[0].1@
    } else {
        variant_text(variants.drop_first(), code)
    }
}

/// The first formatter in `categories` for the category numbered `id`.
pub fn lookup_category(categories: &[ErrorCodeFormatter], id: CategoryId) -> (found: Option<
    ErrorCodeFormatter,
>)
    ensures
        found == find_category(categories@, id),
{
    let mut i: usize = 0;
    assert(categories@.skip(0) =~= categories@);
    while i < categories.len()
        invariant
            i <= categories.len(),
            find_category(categories@, id) == find_category(categories@.skip(i as int), id),
        decreases categories.len() - i,
    {
        if categories[i].handle.id == id {
            return Some(categories[i]);
        }
        assert(categories@.skip(i as int).drop_first() =~= categories@.skip(i as int + 1));
        i += 1;
    }
    None
}

/// The decimal digit `d` as a character.
pub open spec fn digit_char(d: nat) -> char {
    if d == 0 {
        '0'
    } else if d == 1 {
        '1'
    } else if d == 2 {
        '2'
    } else if d == 3 {
        '3'
    } else if d == 4 {
        '4'
    } else if d == 5 {
        '5'
    } else if d == 6 {
        '6'
    } else if d == 7 {
        '7'
    } else if d == 8 {
        '8'
    } else {
        '9'
    }
}

/// The text of the decimal digit `d`.
pub open spec fn digit_text(d: nat) -> Seq<char> {
    seq![digit_char(d)]
}

/// The decimal text of `n`, without leading zeros.
pub open spec fn decimal_text(n: nat) -> Seq<char>
    decreases n,
{
    if n < 10 {
        digit_text(n)
    } else {
        decimal_text(n / 10) + digit_text(n % 10)
    }
}

/// The text between the name of a category and a code.
pub open spec fn open_bracket() -> Seq<char> {
    seq!['(']
}

/// The text between a code and the text of its variant.
pub open spec fn close_bracket() -> Seq<char> {
    seq![')', ':', ' ']
}

/// The text of the decimal digit `d`.
pub fn digit_str(d: u8) -> (text: &'static str)
    requires
        d < 10,
    ensures
        text@ == digit_text(d as nat),
{
    let text: &'static str = if d == 0 {
        "0"
    } else if d == 1 {
        "1"
    } else if d == 2 {
        "2"
    } else if d == 3 {
        "3"
    } else if d == 4 {
        "4"
    } else if d == 5 {
        "5"
    } else if d == 6 {
        "6"
    } else if d == 7 {
        "7"
    } else if d == 8 {
        "8"
    } else {
        "9"
    };
    proof {
        reveal_strlit("0");
        reveal_strlit("1");
        reveal_strlit("2");
        reveal_strlit("3");
        reveal_strlit("4");
        reveal_strlit("5");
        reveal_strlit("6");
        reveal_strlit("7");
        reveal_strlit("8");
        reveal_strlit("9");
        assert(text@ =~= digit_text(d as nat));
    }
    text
}

/// Writes `n` in decimal.
pub fn write_decimal(f: &mut TextSink, n: u8) -> (res: Result<(), FmtError>)
    ensures
        wrote(*old(f), *final(f), decimal_text(n as nat), res),
{
    let ghost before = *f;
    if n >= 100 {
        let hundreds = f.write_str(digit_str(n / 100));
        if hundreds.is_err() {
            proof {
                lemma_wrote_failed(
                    before,
                    *f,
                    digit_text((n / 100) as nat),
                    digit_text((n / 10 % 10) as nat) + digit_text((n % 10) as nat),
                    hundreds,
                );
                assert(decimal_text(n as nat) =~= digit_text((n / 100) as nat) + (digit_text(
                    (n / 10 % 10) as nat,
                ) + digit_text((n % 10) as nat))) by {
                    reveal_with_fuel(decimal_text, 3);
                }
            }
            return hundreds;
        }
    }
    let ghost after_hundreds = *f;
    let ghost hundreds_text = if n >= 100 {
        digit_text((n / 100) as nat)
    } else {
        Seq::<char>::empty()
    };
    assert(wrote(before, after_hundreds, hundreds_text, Ok(()))) by {
        assert(before@ + Seq::<char>::empty() =~= before@);
    }
    if n >= 10 {
        let tens = f.write_str(digit_str(n / 10 % 10));
        proof {
            lemma_wrote_then(
                before,
                after_hundreds,
                *f,
                hundreds_text,
                digit_text((n / 10 % 10) as nat),
                tens,
            );
        }
        if tens.is_err() {
            proof {
                lemma_wrote_failed(
                    before,
                    *f,
                    hundreds_text + digit_text((n / 10 % 10) as nat),
                    digit_text((n % 10) as nat),
                    tens,
                );
                assert(decimal_text(n as nat) =~= (hundreds_text + digit_text(
                    (n / 10 % 10) as nat,
                )) + digit_text((n % 10) as nat)) by {
                    reveal_with_fuel(decimal_text, 3);
                }
            }
            return tens;
        }
    }
    let ghost after_tens = *f;
    let ghost tens_text = if n >= 10 {
        hundreds_text + digit_text((n / 10 % 10) as nat)
    } else {
        Seq::<char>::empty()
    };
    let ones = f.write_str(digit_str(n % 10));
    proof {
        lemma_wrote_then(before, after_tens, *f, tens_text, digit_text((n % 10) as nat), ones);
        assert(decimal_text(n as nat) =~= tens_text + digit_text((n % 10) as nat)) by {
            reveal_with_fuel(decimal_text, 3);
        }
    }
    ones
}

impl ErrorCodeFormatter {
    /// The formatter of category `C`.
    pub open spec fn of<C: ErrorCategory>() -> ErrorCodeFormatter {
        ErrorCodeFormatter {
            handle: ErrorCategoryHandle::of::<C>(),
            links: [
                <C::L0 as CategoryIdentity>::ID,
                <C::L1 as CategoryIdentity>::ID,
                <C::L2 as CategoryIdentity>::ID,
                <C::L3 as CategoryIdentity>::ID,
                <C::L4 as CategoryIdentity>::ID,
                <C::L5 as CategoryIdentity>::ID,
            ],
            variants: C::VARIANTS,
        }
    }

    /// The formatter of category `C`.
    pub fn new<C: ErrorCategory>() -> (formatter: ErrorCodeFormatter)
        ensures
            formatter == Self::of::<C>(),
            formatter.links@ == links_of::<C>(),
    {
        let links: [CategoryId; 6] = [
            <C::L0 as CategoryIdentity>::ID,
            <C::L1 as CategoryIdentity>::ID,
            <C::L2 as CategoryIdentity>::ID,
            <C::L3 as CategoryIdentity>::ID,
            <C::L4 as CategoryIdentity>::ID,
            <C::L5 as CategoryIdentity>::ID,
        ];
        assert(links@ =~= links_of::<C>());
        ErrorCodeFormatter { handle: ErrorCategoryHandle::new::<C>(), links, variants: C::VARIANTS }
    }

    /// The formatter that link `next_formatter` of this category leads to:
    /// the one listed in `categories` for the category in that slot of the
    /// link table. There is none without an index, for an index outside
    /// the table and for a category that `categories` does not list.
    pub open spec fn linked(
        self,
        categories: Seq<ErrorCodeFormatter>,
        next_formatter: Option<u8>,
    ) -> Option<ErrorCodeFormatter> {
        match next_formatter {
            Some(idx) => if idx < 6 {
                find_category(categories, self.links[idx as int])
            } else {
                None
            },
            None => None,
        }
    }

    /// The line that shows `error_code` as a code of this category: the
    /// name, the code in decimal between round brackets, a colon, a space
    /// and the text of the code.
    pub open spec fn line(self, error_code: ErrorCode) -> Seq<char> {
        self.handle.name@ + open_bracket() + decimal_text(error_code as nat) + close_bracket()
            + variant_text(self.variants@, error_code)
    }

    /// The text of `error_code` in this category, or the empty text if
    /// the category has none for it.
    pub fn variant_str(&self, error_code: ErrorCode) -> (text: &'static str)
        ensures
            text@ == variant_text(self.variants@, error_code),
    {
        let mut i: usize = 0;
        assert(self.variants@.skip(0) =~= self.variants@);
        while i < self.variants.len()
            invariant
                i <= self.variants.len(),
                variant_text(self.variants@, error_code) == variant_text(
                    self.variants@.skip(i as int),
                    error_code,
                ),
            decreases self.variants.len() - i,
        {
            if self.variants[i].0 == error_code {
                return self.variants[i].1;
            }
            assert(self.variants@.skip(i as int).drop_first() =~= self.variants@.skip(
                i as int + 1,
            ));
            i += 1;
        }
        let none: &'static str = "";
        proof {
            reveal_strlit("");
            assert(none@ =~= Seq::<char>::empty());
        }
        none
    }

    /// The formatter that link `next_formatter` leads to, looked up in
    /// `categories`.
    pub fn next(&self, categories: &[ErrorCodeFormatter], next_formatter: Option<u8>) -> (found:
        Option<ErrorCodeFormatterVal>)
        ensures
            match self.linked(categories@, next_formatter) {
                Some(formatter) => found == Some(ErrorCodeFormatterVal(formatter)),
                None => found.is_none(),
            },
    {
        match next_formatter {
            Some(idx) => {
                let idx: usize = idx as usize;
                if idx < self.links.len() {
                    match lookup_category(categories, self.links[idx]) {
                        Some(formatter) => Some(ErrorCodeFormatterVal::new(formatter)),
                        None => None,
                    }
                } else {
                    None
                }
            },
            None => None,
        }
    }

    /// Writes the line of `error_code` to `f`.
    pub fn write_line(&self, error_code: ErrorCode, f: &mut TextSink) -> (res: Result<
        (),
        FmtError,
    >)
        ensures
            wrote(*old(f), *final(f), self.line(error_code), res),
    {
        let ghost before = *f;
        let ghost name = self.handle.name@;
        let ghost number = decimal_text(error_code as nat);
        let ghost text = variant_text(self.variants@, error_code);
        assert(self.line(error_code)
            =~= name + (open_bracket() + (number + (close_bracket() + text))));

        let name_res = f.write_str(self.handle.name);
        if name_res.is_err() {
            proof {
                lemma_wrote_failed(
                    before,
                    *f,
                    name,
                    open_bracket() + (number + (close_bracket() + text)),
                    name_res,
                );
            }
            return name_res;
        }
        let ghost after_name = *f;

        let open: &'static str = "(";
        proof {
            reveal_strlit("(");
            assert(open@ =~= open_bracket());
        }
        let open_res = f.write_str(open);
        proof {
            lemma_wrote_then(before, after_name, *f, name, open_bracket(), open_res);
        }
        if open_res.is_err() {
            proof {
                lemma_wrote_failed(
                    before,
                    *f,
                    name + open_bracket(),
                    number + (close_bracket() + text),
                    open_res,
                );
                assert((name + open_bracket()) + (number + (close_bracket() + text))
                    =~= self.line(error_code));
            }
            return open_res;
        }
        let ghost after_open = *f;

        let number_res = write_decimal(f, error_code);
        proof {
            lemma_wrote_then(before, after_open, *f, name + open_bracket(), number, number_res);
        }
        if number_res.is_err() {
            proof {
                lemma_wrote_failed(
                    before,
                    *f,
                    name + open_bracket() + number,
                    close_bracket() + text,
                    number_res,
                );
                assert((name + open_bracket() + number) + (close_bracket() + text)
                    =~= self.line(error_code));
            }
            return number_res;
        }
        let ghost after_number = *f;

        let close: &'static str = "): ";
        proof {
            reveal_strlit("): ");
            assert(close@ =~= close_bracket());
        }
        let close_res = f.write_str(close);
        proof {
            lemma_wrote_then(
                before,
                after_number,
                *f,
                name + open_bracket() + number,
                close_bracket(),
                close_res,
            );
        }
        if close_res.is_err() {
            proof {
                lemma_wrote_failed(
                    before,
                    *f,
                    name + open_bracket() + number + close_bracket(),
                    text,
                    close_res,
                );
            }
            return close_res;
        }
        let ghost after_close = *f;

        let text_res = f.write_str(self.variant_str(error_code));
        proof {
            lemma_wrote_then(
                before,
                after_close,
                *f,
                name + open_bracket() + number + close_bracket(),
                text,
                text_res,
            );
        }
        text_res
    }

    /// Renders `error_code` as a code of this category, if there is a sink
    /// to render it to, and finds the formatter that link `next_formatter`
    /// leads to.
    ///
    /// The handle of this category is returned in any case. A failed write
    /// is handed on in place of the next formatter.
    pub fn format(
        &self,
        categories: &[ErrorCodeFormatter],
        error_code: ErrorCode,
        next_formatter: Option<u8>,
        f: Option<&mut TextSink>,
    ) -> (res: (ErrorCategoryHandle, Result<Option<ErrorCodeFormatterVal>, FmtError>))
        ensures
            res.0 == self.handle,
            self.dispatched(
                categories@,
                error_code,
                next_formatter,
                match f {
                    Some(sink) => Some((*sink, *final(sink))),
                    None => None,
                },
                res.1,
            ),
    {
        let fmt_res: Result<(), FmtError> = match f {
            Some(sink) => self.write_line(error_code, sink),
            None => Ok(()),
        };
        let next: Result<Option<ErrorCodeFormatterVal>, FmtError> = match fmt_res {
            Ok(_) => Ok(self.next(categories, next_formatter)),
            Err(e) => Err(e),
        };
        (self.handle, next)
    }

    /// What a call of `format` does. `f` holds the sink before and after
    /// the call, if there is a sink: the line of the code is written to it,
    /// and `res` fails if the write did. With or without a sink, a `res`
    /// that did not fail holds the formatter that the link leads to.
    pub open spec fn dispatched(
        self,
        categories: Seq<ErrorCodeFormatter>,
        error_code: ErrorCode,
        next_formatter: Option<u8>,
        f: Option<(TextSink, TextSink)>,
        res: Result<Option<ErrorCodeFormatterVal>, FmtError>,
    ) -> bool {
        &&& match f {
            Some(sink) => wrote(
                sink.0,
                sink.1,
                self.line(error_code),
                match res {
                    Ok(_) => Ok(()),
                    Err(e) => Err(e),
                },
            ),
            None => res.is_ok(),
        }
        &&& match res {
            Ok(next) => match self.linked(categories, next_formatter) {
                Some(formatter) => next == Some(ErrorCodeFormatterVal(formatter)),
                None => next.is_none(),
            },
            Err(_) => true,
        }
    }
}

/// Renders `error_code` as a code of category `C`, if there is a sink, and
/// finds the formatter that link `next_formatter` of `C` leads to.
pub fn format_chained<C: ErrorCategory>(
    categories: &[ErrorCodeFormatter],
    error_code: ErrorCode,
    next_formatter: Option<u8>,
    f: Option<&mut TextSink>,
) -> (res: (ErrorCategoryHandle, Result<Option<ErrorCodeFormatterVal>, FmtError>))
    ensures
        res.0 == ErrorCategoryHandle::of::<C>(),
        ErrorCodeFormatter::of::<C>().dispatched(
            categories@,
            error_code,
            next_formatter,
            match f {
                Some(sink) => Some((*sink, *final(sink))),
                None => None,
            },
            res.1,
        ),
{
    let formatter = ErrorCodeFormatter::new::<C>();
    formatter.format(categories, error_code, next_formatter, f)
}

} // verus!
