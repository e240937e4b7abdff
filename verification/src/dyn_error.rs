use crate::error::{
    caused_by_in, code_of_category_in, error_nodes, first_code_of, node_handles, yields_code,
    ChainError, Error, ErrorIter,
};
use crate::error_category::{
    links_of, CategoryId, ErrorCategory, ErrorCategoryHandle, ErrorCodeFormatter,
};
use crate::error_data::{link_field, ChainFields, ErrorData, ERROR_CHAIN_LEN};
use crate::sink::{lemma_wrote_failed, lemma_wrote_then, wrote, FmtError, TextSink};
use crate::ErrorCode;
use vstd::prelude::*;
use vstd::std_specs::convert::{FromSpec, FromSpecImpl, IntoSpec};

verus! {

/// The first slot at or behind `start` in which `links` holds `id`.
pub open spec fn find_link_from(links: Seq<CategoryId>, id: CategoryId, start: int) -> Option<u8>
    decreases links.len() - start,
{
    if start < 0 || start >= links.len() {
        None
    } else if links[start] == id {
        Some(start as u8)
    } else {
        find_link_from(links, id, start + 1)
    }
}

/// The first slot in which the link table `links` holds `id`.
pub open spec fn find_link(links: Seq<CategoryId>, id: CategoryId) -> Option<u8> {
    find_link_from(links, id, 0)
}

/// The search of a link table finds the slot that holds `id` if no slot
/// before it does. So chaining an error at run time stores the same link,
/// and gives the same record, as chaining it through that slot where the
/// categories are known from the types.
pub proof fn lemma_find_link_first(links: Seq<CategoryId>, id: CategoryId, slot: u8)
    requires
        slot < links.len(),
        links[slot as int] == id,
        forall|j: int| 0 <= j < slot ==> links[j] != id,
    ensures
        find_link(links, id) == Some(slot),
        forall|fields: ChainFields, code: ErrorCode|
            fields.push_front(code, link_field(find_link(links, id).unwrap()))
                == #[trigger] fields.push_front(code, link_field(slot)),
{
    lemma_find_link_from(links, id, slot, 0);
}

/// A search that starts at or before the first slot holding `id` finds
/// that slot.
proof fn lemma_find_link_from(links: Seq<CategoryId>, id: CategoryId, slot: u8, start: int)
    requires
        0 <= start <= slot < links.len(),
        links[slot as int] == id,
        forall|j: int| 0 <= j < slot ==> links[j] != id,
    ensures
        find_link_from(links, id, start) == Some(slot),
    decreases slot - start,
{
    if start < slot {
        lemma_find_link_from(links, id, slot, start + 1);
    }
}

/// A search that finds no slot means that no slot holds `id`, and a slot
/// that it finds holds `id` and is the first to do so.
pub proof fn lemma_find_link(links: Seq<CategoryId>, id: CategoryId)
    requires
        links.len() <= 256,
    ensures
        match find_link(links, id) {
            Some(slot) => slot < links.len() && links[slot as int] == id && forall|j: int|
                0 <= j < slot ==> links[j] != id,
            None => forall|j: int| 0 <= j < links.len() ==> links[j] != id,
        },
{
    lemma_find_link_behind(links, id, 0);
}

/// What a search that starts at `start` finds.
proof fn lemma_find_link_behind(links: Seq<CategoryId>, id: CategoryId, start: int)
    requires
        0 <= start <= links.len() <= 256,
    ensures
        match find_link_from(links, id, start) {
            Some(slot) => start <= slot < links.len() && links[slot as int] == id && forall|j: int|
                start <= j < slot ==> links[j] != id,
            None => forall|j: int| start <= j < links.len() ==> links[j] != id,
        },
    decreases links.len() - start,
{
    if start < links.len() && links[start] != id {
        lemma_find_link_behind(links, id, start + 1);
    }
}

/// What stands between two lines of a rendered error: a line break, a
/// dash and a space.
pub open spec fn cause_prefix() -> Seq<char> {
    seq!['\n', '-', ' ']
}

/// The lines of the causes in `nodes`, each on a line of its own behind a
/// dash.
pub open spec fn causes_text(nodes: Seq<(ErrorCode, ErrorCodeFormatter)>) -> Seq<char>
    decreases nodes.len(),
{
    if nodes.len() == 0 {
        Seq::empty()
    } else {
        cause_prefix() + nodes[0].1.line(nodes[0].0) + causes_text(nodes.drop_first())
    }
}

/// The text of an error with the codes `nodes`: the line of the current
/// code, and below it the lines of its causes from newest to oldest.
pub open spec fn rendered(nodes: Seq<(ErrorCode, ErrorCodeFormatter)>) -> Seq<char> {
    if nodes.len() == 0 {
        Seq::empty()
    } else {
        nodes[0].1.line(nodes[0].0) + causes_text(nodes.drop_first())
    }
}

/// An error whose category is known at run time only.
///
/// It holds the packed record and, in place of a type, the formatter of
/// the category of the current code.
#[derive(Clone, Copy, PartialEq, Eq)]
pub struct DynError {
    error: ErrorData,
    category_formatter: ErrorCodeFormatter,
}

impl DynError {
    /// The record of the error.
    pub closed spec fn data(self) -> ErrorData {
        self.error
    }

    /// The formatter of the category of the current code.
    pub closed spec fn category(self) -> ErrorCodeFormatter {
        self.category_formatter
    }

    /// An error with the current code `error_code` of category `C` and no
    /// causes.
    pub fn new<C: ErrorCategory>(error_code: C) -> (error: DynError)
        ensures
            error.category() == ErrorCodeFormatter::of::<C>(),
            error.data()@ == ChainFields::single(error.data()@.code()),
            <C as IntoSpec<ErrorCode>>::obeys_into_spec() ==> error.data() == ErrorData::spec_new(
                error_code.into_spec(),
            ) && error.data()@.code() == error_code.into_spec() % 16,
    {
        DynError {
            error: ErrorData::new(error_code.into()),
            category_formatter: ErrorCodeFormatter::new::<C>(),
        }
    }

    /// The error made of the record `error_data` and the formatter
    /// `category_formatter`.
    pub closed spec fn spec_from_raw_parts(
        error_data: ErrorData,
        category_formatter: ErrorCodeFormatter,
    ) -> DynError {
        DynError { error: error_data, category_formatter }
    }

    /// An error made of a record and a formatter holds the two.
    pub proof fn lemma_raw_parts(error_data: ErrorData, category_formatter: ErrorCodeFormatter)
        ensures
            Self::spec_from_raw_parts(error_data, category_formatter).data() == error_data,
            Self::spec_from_raw_parts(error_data, category_formatter).category()
                == category_formatter,
    {
    }

    /// The error made of the record `error_data` and the formatter
    /// `category_formatter`. Nothing checks that the record's current code
    /// belongs to the formatter's category, nor that its links fit the
    /// link tables.
    pub fn from_raw_parts(error_data: ErrorData, category_formatter: ErrorCodeFormatter) -> (error:
        DynError)
        ensures
            error == Self::spec_from_raw_parts(error_data, category_formatter),
            error.data() == error_data,
            error.category() == category_formatter,
    {
        DynError { error: error_data, category_formatter }
    }

    /// The record and the formatter of this error.
    pub fn into_raw_parts(self) -> (parts: (ErrorData, ErrorCodeFormatter))
        ensures
            parts.0 == self.data(),
            parts.1 == self.category(),
    {
        (self.error, self.category_formatter)
    }

    /// The current code.
    pub fn code(&self) -> (code: ErrorCode)
        ensures
            code == self.data()@.code(),
    {
        self.error.code()
    }

    /// The number of causes.
    pub fn chain_len(&self) -> (len: usize)
        ensures
            len == self.data()@.chain_len(),
    {
        self.error.chain_len()
    }

    /// The number of causes an error can carry.
    pub fn chain_capacity(&self) -> (capacity: usize)
        ensures
            capacity == ERROR_CHAIN_LEN,
    {
        ERROR_CHAIN_LEN
    }

    /// The handle of the category of the current code.
    pub fn category_handle(&self) -> (handle: ErrorCategoryHandle)
        ensures
            handle == self.category().handle,
    {
        let categories: [ErrorCodeFormatter; 0] = [];
        self.category_formatter.format(categories.as_slice(), 0, None, None).0
    }

    /// The formatter of the category of the current code.
    pub fn formatter(&self) -> (formatter: ErrorCodeFormatter)
        ensures
            formatter == self.category(),
    {
        self.category_formatter
    }

    /// Whether the current code belongs to category `C`.
    pub fn is<C: ErrorCategory>(&self) -> (is: bool)
        ensures
            is == (self.category().handle.id == C::ID),
    {
        self.category_handle().is_handle_of::<C>()
    }

    /// This error as an error of category `C`, if its current code
    /// belongs to `C`, and the error itself if it does not.
    pub fn try_into<C: ErrorCategory>(self) -> (res: Result<Error<C>, DynError>)
        ensures
            self.category().handle.id == C::ID ==> res.is_ok() && res->Ok_0.data() == self.data(),
            self.category().handle.id != C::ID ==> res == Err::<Error<C>, DynError>(self),
    {
        if self.is::<C>() {
            Ok(Error::from_raw(self.error))
        } else {
            Err(self)
        }
    }

    /// The codes of this error with the formatters of their categories,
    /// from the current code to the oldest cause that `categories` leads
    /// to.
    pub open spec fn nodes(self, categories: Seq<ErrorCodeFormatter>) -> Seq<
        (ErrorCode, ErrorCodeFormatter),
    > {
        error_nodes(categories, self.category(), self.data()@)
    }

    /// Whether this error is, or was caused by, the code numbered `code`
    /// of the category of `category_handle`.
    pub fn caused_by_code(
        &self,
        categories: &[ErrorCodeFormatter],
        category_handle: ErrorCategoryHandle,
        code: ErrorCode,
    ) -> (found: bool)
        ensures
            found == caused_by_in(node_handles(self.nodes(categories@)), category_handle.id, code),
    {
        yields_code(self.iter(categories), category_handle, code)
    }

    /// Whether this error is, or was caused by, `error_code`.
    pub fn caused_by<T: ErrorCategory>(
        &self,
        categories: &[ErrorCodeFormatter],
        error_code: T,
    ) -> (found: bool)
        ensures
            <T as IntoSpec<ErrorCode>>::obeys_into_spec() ==> found == caused_by_in(
                node_handles(self.nodes(categories@)),
                T::ID,
                error_code.into_spec(),
            ),
    {
        let error_code: ErrorCode = error_code.into();
        let category_handle = ErrorCategoryHandle::new::<T>();
        self.caused_by_code(categories, category_handle, error_code)
    }

    /// The newest code of this error that belongs to the category of
    /// `category_handle`.
    pub fn raw_code_of_category(
        &self,
        categories: &[ErrorCodeFormatter],
        category_handle: ErrorCategoryHandle,
    ) -> (found: Option<ErrorCode>)
        ensures
            found == code_of_category_in(node_handles(self.nodes(categories@)), category_handle.id),
    {
        first_code_of(self.iter(categories), category_handle)
    }

    /// The newest code of this error that belongs to category `T`, or
    /// `None` if no code of `T` is among its causes.
    pub fn code_of_category<T: ErrorCategory>(&self, categories: &[ErrorCodeFormatter]) -> (found:
        Option<T>)
        ensures
            found.is_some() == code_of_category_in(
                node_handles(self.nodes(categories@)),
                T::ID,
            ).is_some(),
            found.is_some() && <T as FromSpec<ErrorCode>>::obeys_from_spec() ==> found == Some(
                T::from_spec(
                    code_of_category_in(node_handles(self.nodes(categories@)), T::ID).unwrap(),
                ),
            ),
    {
        let category_handle = ErrorCategoryHandle::new::<T>();
        match self.raw_code_of_category(categories, category_handle) {
            Some(ec) => Some(T::from(ec)),
            None => None,
        }
    }

    /// A walk over the codes of this error, from the current code to the
    /// oldest cause, each with the handle of its category.
    pub fn iter<'a>(&self, categories: &'a [ErrorCodeFormatter]) -> (iter: ErrorIter<'a>)
        ensures
            iter.nodes() == self.nodes(categories@),
    {
        ErrorIter::new(
            categories,
            self.category_formatter,
            self.error.code(),
            self.error.first_formatter_index(),
            self.error.iter_chain(),
        )
    }

    /// Writes this error to `f`: the line of the current code, and below
    /// it one line per cause, from newest to oldest, each behind a dash.
    /// The first write that fails ends the rendering and is handed on.
    pub fn fmt(&self, categories: &[ErrorCodeFormatter], f: &mut TextSink) -> (res: Result<
        (),
        FmtError,
    >)
        ensures
            wrote(*old(f), *final(f), rendered(self.nodes(categories@)), res),
    {
        let ghost before = *f;
        let ghost nodes = self.nodes(categories@);
        let code: ErrorCode = self.code();
        let first_index: Option<u8> = self.error.first_formatter_index();
        let mut chain_iter = self.error.iter_chain();
        let ghost first_line = self.category_formatter.line(code);
        let (_, fmt_result) = self.category_formatter.format(
            categories,
            code,
            first_index,
            Some(&mut *f),
        );
        let mut formatter_func = match fmt_result {
            Ok(next) => next,
            Err(e) => {
                proof {
                    lemma_wrote_failed(
                        before,
                        *f,
                        first_line,
                        causes_text(nodes.drop_first()),
                        Err(e),
                    );
                }
                return Err(e);
            },
        };
        let ghost mut written: Seq<char> = first_line;
        let ghost mut todo: Seq<(ErrorCode, ErrorCodeFormatter)> = nodes.drop_first();
        assert(written + causes_text(todo) =~= rendered(nodes));
        loop
            invariant
                before == *old(f),
                nodes == self.nodes(categories@),
                wrote(before, *f, written, Ok(())),
                rendered(nodes) == written + causes_text(todo),
                todo =~= match formatter_func {
                    Some(formatter) => if chain_iter.remaining().len() > 0 {
                        crate::error::chain_nodes(
                            categories@,
                            formatter.0,
                            chain_iter.remaining()[0].0,
                            chain_iter.remaining()[0].1,
                            chain_iter.remaining().drop_first(),
                        )
                    } else {
                        Seq::empty()
                    },
                    None => Seq::empty(),
                },
            ensures
                wrote(before, *f, rendered(nodes), Ok(())),
            decreases chain_iter.remaining().len(),
        {
            let ghost rest = chain_iter.remaining();
            let item = chain_iter.next();
            match item {
                Some((ec, next_fmt_index)) => {
                    match formatter_func {
                        Some(formatter_val) => {
                            let formatter: ErrorCodeFormatter = formatter_val.into();
                            let ghost line = formatter.line(ec);
                            let ghost after_line = todo.drop_first();
                            assert(rest.drop_first() =~= rest.skip(1));
                            assert(todo[0] == (ec, formatter));
                            assert(causes_text(todo) =~= cause_prefix() + (line + causes_text(
                                after_line,
                            )));
                            assert(rendered(nodes) =~= (written + cause_prefix()) + (line
                                + causes_text(after_line)));
                            let ghost at_dash = *f;
                            let dash: &'static str = "\n- ";
                            proof {
                                reveal_strlit("\n- ");
                                assert(dash@ =~= cause_prefix());
                            }
                            let dash_res = f.write_str(dash);
                            proof {
                                lemma_wrote_then(
                                    before,
                                    at_dash,
                                    *f,
                                    written,
                                    cause_prefix(),
                                    dash_res,
                                );
                            }
                            if dash_res.is_err() {
                                proof {
                                    lemma_wrote_failed(
                                        before,
                                        *f,
                                        written + cause_prefix(),
                                        line + causes_text(after_line),
                                        dash_res,
                                    );
                                }
                                return dash_res;
                            }
                            let ghost at_line = *f;
                            let (_, next_formatter) = formatter.format(
                                categories,
                                ec,
                                next_fmt_index,
                                Some(&mut *f),
                            );
                            proof {
                                lemma_wrote_then(
                                    before,
                                    at_line,
                                    *f,
                                    written + cause_prefix(),
                                    line,
                                    match next_formatter {
                                        Ok(_) => Ok(()),
                                        Err(e) => Err(e),
                                    },
                                );
                                assert(rendered(nodes) =~= ((written + cause_prefix()) + line)
                                    + causes_text(after_line));
                            }
                            match next_formatter {
                                Ok(next) => {
                                    formatter_func = next;
                                    proof {
                                        written = (written + cause_prefix()) + line;
                                        todo = after_line;
                                    }
                                },
                                Err(e) => {
                                    proof {
                                        lemma_wrote_failed(
                                            before,
                                            *f,
                                            (written + cause_prefix()) + line,
                                            causes_text(after_line),
                                            Err(e),
                                        );
                                    }
                                    return Err(e);
                                },
                            }
                        },
                        None => {
                            assert(written + Seq::<char>::empty() =~= written);
                            break ;
                        },
                    }
                },
                None => {
                    assert(written + Seq::<char>::empty() =~= written);
                    break ;
                },
            }
        }
        Ok(())
    }

    /// The text of this error: the line of the current code, and below it
    /// one line per cause, from newest to oldest, each behind a dash.
    pub fn to_text(&self, categories: &[ErrorCodeFormatter]) -> (text: String)
        ensures
            text@ == rendered(self.nodes(categories@)),
    {
        let mut sink = TextSink::new();
        let ghost empty = sink;
        let _ = self.fmt(categories, &mut sink);
        assert(empty@ + rendered(self.nodes(categories@)) =~= rendered(self.nodes(categories@)));
        sink.into_string()
    }

    /// Chains this error with `error_code` of category `C`, if `C` links
    /// to the category of this error.
    ///
    /// The link table of `C` is searched for the category of this error.
    /// In the first slot that holds it, the current code becomes the newest
    /// cause and `error_code` the current code of an error of category
    /// `C`. If no slot holds it, this error comes back as it was.
    pub fn try_chain<C: ErrorCategory>(self, error_code: C) -> (res: Result<Error<C>, DynError>)
        ensures
            match find_link(links_of::<C>(), self.category().handle.id) {
                Some(index) => res.is_ok() && res->Ok_0.data()@ == self.data()@.push_front(
                    res->Ok_0.data()@.code(),
                    link_field(index),
                ) && (<C as IntoSpec<ErrorCode>>::obeys_into_spec() ==> res->Ok_0.data()@.code()
                    == error_code.into_spec() % 16),
                None => res == Err::<Error<C>, DynError>(self),
            },
    {
        let links: [CategoryId; 6] = ErrorCodeFormatter::new::<C>().links;
        let id: CategoryId = self.category_formatter.handle.id;
        let mut i: usize = 0;
        while i < links.len()
            invariant
                i <= 6,
                links@ == links_of::<C>(),
                id == self.category().handle.id,
                find_link(links@, id) == find_link_from(links@, id, i as int),
            decreases 6 - i,
        {
            if links[i] == id {
                let index: u8 = i as u8;
                let mut data: ErrorData = self.error;
                ErrorData::chain(&mut data, error_code.into(), index);
                return Ok(Error::from_raw(data));
            }
            i += 1;
        }
        Err(self)
    }
}

impl<O: ErrorCategory> ChainError<O, DynError> for DynError {
    open spec fn source(self) -> ErrorData {
        self.data()
    }

    open spec fn link(self) -> Option<u8> {
        find_link(links_of::<O>(), self.category().handle.id)
    }

    open spec fn conversions_obey(self) -> bool {
        <O as IntoSpec<ErrorCode>>::obeys_into_spec()
    }

    /// Chains this error with `error_code`, whose category must link to
    /// the category of this error.
    fn chain(self, error_code: O) -> (error: Error<O>) {
        match self.try_chain(error_code) {
            Ok(error) => error,
            Err(_) => vstd::pervasive::unreached(),
        }
    }
}

impl<C: ErrorCategory> From<Error<C>> for DynError {
    fn from(error: Error<C>) -> (res: DynError) {
        DynError::from_raw_parts(error.into_data(), ErrorCodeFormatter::new::<C>())
    }
}

impl<C: ErrorCategory> FromSpecImpl<Error<C>> for DynError {
    open spec fn obeys_from_spec() -> bool {
        true
    }

    open spec fn from_spec(error: Error<C>) -> DynError {
        DynError::spec_from_raw_parts(error.data(), ErrorCodeFormatter::of::<C>())
    }
}

impl<C: ErrorCategory> From<C> for DynError {
    fn from(error: C) -> (res: DynError) {
        DynError::from_raw_parts(ErrorData::new(error.into()), ErrorCodeFormatter::new::<C>())
    }
}

impl<C: ErrorCategory> FromSpecImpl<C> for DynError {
    open spec fn obeys_from_spec() -> bool {
        <C as IntoSpec<ErrorCode>>::obeys_into_spec()
    }

    open spec fn from_spec(error: C) -> DynError {
        DynError::spec_from_raw_parts(
            ErrorData::spec_new(error.into_spec()),
            ErrorCodeFormatter::of::<C>(),
        )
    }
}

} // verus!
