use crate::dyn_error::{rendered, DynError};
use crate::error_category::{CategoryId, ErrorCategory, ErrorCategoryHandle, ErrorCodeFormatter};
use crate::error_data::{
    link_field, link_index, ChainFields, ErrorData, ErrorDataChainIter, ERROR_CHAIN_LEN,
};
use crate::marker;
use crate::sink::{wrote, FmtError, TextSink};
use crate::ErrorCode;
use core::marker::PhantomData;
use vstd::prelude::*;
use vstd::std_specs::cmp::PartialEqSpecImpl;
use vstd::std_specs::convert::{FromSpec, FromSpecImpl, IntoSpec};

verus! {

/// The codes of a chain with the formatters of their categories, newest
/// first.
///
/// The walk starts at `code`, a code of the category of `formatter`.
/// `next` is the link index of the first cause and `rest` holds the causes
/// as a walk over the record yields them. Each cause's formatter is the one
/// that the link leads to from the formatter before it. The walk ends
/// with the last cause, or before a cause whose link leads nowhere.
pub open spec fn chain_nodes(
    categories: Seq<ErrorCodeFormatter>,
    formatter: ErrorCodeFormatter,
    code: ErrorCode,
    next: Option<u8>,
    rest: Seq<(ErrorCode, Option<u8>)>,
) -> Seq<(ErrorCode, ErrorCodeFormatter)>
    decreases rest.len(),
{
    if rest.len() == 0 {
        seq![(code, formatter)]
    } else {
        match formatter.linked(categories, next) {
            Some(linked) => seq![(code, formatter)] + chain_nodes(
                categories,
                linked,
                rest[0].0,
                rest[0].1,
                rest.drop_first(),
            ),
            None => seq![(code, formatter)],
        }
    }
}

/// The codes of a record and the formatters of their categories, newest
/// first, where `formatter` is that of the current code.
pub open spec fn error_nodes(
    categories: Seq<ErrorCodeFormatter>,
    formatter: ErrorCodeFormatter,
    fields: ChainFields,
) -> Seq<(ErrorCode, ErrorCodeFormatter)> {
    chain_nodes(categories, formatter, fields.code(), link_index(fields.links[0]), fields.items())
}

/// Each code of `nodes` with the handle of its category.
pub open spec fn node_handles(nodes: Seq<(ErrorCode, ErrorCodeFormatter)>) -> Seq<
    (ErrorCode, ErrorCategoryHandle),
> {
    Seq::new(nodes.len(), |i: int| (nodes[i].0, nodes[i].1.handle))
}

/// A walk over the codes of an error, from the current code to the oldest
/// cause, each with the handle of its category.
pub struct ErrorIter<'a> {
    categories: &'a [ErrorCodeFormatter],
    formatter_func: Option<ErrorCodeFormatter>,
    curr_error_code: ErrorCode,
    next_formatter_index: Option<u8>,
    chain_iter: ErrorDataChainIter,
}

impl<'a> ErrorIter<'a> {
    /// A walk that starts at `code`, a code of the category of
    /// `formatter`, and goes on through the causes that `chain_iter`
    /// yields.
    pub fn new(
        categories: &'a [ErrorCodeFormatter],
        formatter: ErrorCodeFormatter,
        code: ErrorCode,
        next_formatter_index: Option<u8>,
        chain_iter: ErrorDataChainIter,
    ) -> (iter: ErrorIter<'a>)
        ensures
            iter.nodes() == chain_nodes(
                categories@,
                formatter,
                code,
                next_formatter_index,
                chain_iter.remaining(),
            ),
    {
        ErrorIter {
            categories,
            formatter_func: Some(formatter),
            curr_error_code: code,
            next_formatter_index,
            chain_iter,
        }
    }

    /// The codes that the walk has yet to yield, with their formatters.
    pub closed spec fn nodes(self) -> Seq<(ErrorCode, ErrorCodeFormatter)> {
        match self.formatter_func {
            Some(formatter) => chain_nodes(
                self.categories@,
                formatter,
                self.curr_error_code,
                self.next_formatter_index,
                self.chain_iter.remaining(),
            ),
            None => Seq::empty(),
        }
    }

    /// The items that the walk has yet to yield, in order.
    pub open spec fn remaining(self) -> Seq<(ErrorCode, ErrorCategoryHandle)> {
        node_handles(self.nodes())
    }

    /// Yields the next code and the handle of its category, or `None`
    /// once the walk has ended.
    pub fn next(&mut self) -> (item: Option<(ErrorCode, ErrorCategoryHandle)>)
        ensures
            old(self).nodes().len() == 0 ==> item.is_none() && final(self).nodes()
                == old(self).nodes(),
            old(self).nodes().len() > 0 ==> item == Some(old(self).remaining()[0])
                && final(self).nodes() == old(self).nodes().drop_first(),
            old(self).remaining().len() == 0 ==> item.is_none() && final(self).remaining()
                == old(self).remaining(),
            old(self).remaining().len() > 0 ==> item == Some(old(self).remaining()[0])
                && final(self).remaining() == old(self).remaining().drop_first(),
    {
        match self.formatter_func {
            Some(formatter_func) => {
                let ghost rest = self.chain_iter.remaining();
                let (err_cat_handle, next_formatter_res) = formatter_func.format(
                    self.categories,
                    0,
                    self.next_formatter_index,
                    None,
                );
                let error_code: ErrorCode = self.curr_error_code;
                let next_item = self.chain_iter.next();
                match (next_item, next_formatter_res) {
                    (
                        Some((next_error_code, next_next_formatter_index)),
                        Ok(Some(next_formatter)),
                    ) => {
                        self.curr_error_code = next_error_code;
                        self.next_formatter_index = next_next_formatter_index;
                        self.formatter_func = Some(next_formatter.into());
                        assert(rest.drop_first() =~= rest.skip(1));
                        assert(final(self).nodes() =~= old(self).nodes().drop_first());
                    },
                    _ => {
                        self.next_formatter_index = None;
                        self.formatter_func = None;
                        assert(old(self).nodes() =~= seq![(error_code, formatter_func)]);
                        assert(final(self).nodes() =~= old(self).nodes().drop_first());
                    },
                }
                assert(final(self).remaining() =~= old(self).remaining().drop_first());
                Some((error_code, err_cat_handle))
            },
            None => None,
        }
    }
}

/// A walk yields the code it starts at, and at most one more code for
/// each cause in the record.
pub proof fn lemma_chain_nodes_len(
    categories: Seq<ErrorCodeFormatter>,
    formatter: ErrorCodeFormatter,
    code: ErrorCode,
    next: Option<u8>,
    rest: Seq<(ErrorCode, Option<u8>)>,
)
    ensures
        1 <= chain_nodes(categories, formatter, code, next, rest).len() <= rest.len() + 1,
        chain_nodes(categories, formatter, code, next, rest)[0] == (code, formatter),
    decreases rest.len(),
{
    if rest.len() > 0 {
        match formatter.linked(categories, next) {
            Some(linked) => {
                lemma_chain_nodes_len(categories, linked, rest[0].0, rest[0].1, rest.drop_first());
            },
            None => {},
        }
    }
}

/// A walk over the first causes of a record yields the first codes of the
/// walk over all of them.
///
/// `short` holds the causes at the front of `rest`; the link index behind
/// its last cause plays no part.
pub proof fn lemma_chain_nodes_truncated(
    categories: Seq<ErrorCodeFormatter>,
    formatter: ErrorCodeFormatter,
    code: ErrorCode,
    next: Option<u8>,
    rest: Seq<(ErrorCode, Option<u8>)>,
    short: Seq<(ErrorCode, Option<u8>)>,
)
    requires
        short.len() <= rest.len(),
        forall|j: int| 0 <= j < short.len() ==> (#[trigger] short[j]).0 == rest[j].0,
        forall|j: int| 0 <= j < short.len() - 1 ==> (#[trigger] short[j]).1 == rest[j].1,
    ensures
        chain_nodes(categories, formatter, code, next, short) == chain_nodes(
            categories,
            formatter,
            code,
            next,
            rest,
        ).take(
            if chain_nodes(categories, formatter, code, next, rest).len() <= short.len() {
                chain_nodes(categories, formatter, code, next, rest).len() as int
            } else {
                short.len() as int + 1
            },
        ),
    decreases rest.len(),
{
    let all = chain_nodes(categories, formatter, code, next, rest);
    let some = chain_nodes(categories, formatter, code, next, short);
    lemma_chain_nodes_len(categories, formatter, code, next, rest);
    if short.len() == 0 {
        assert(some =~= all.take(1));
    } else {
        match formatter.linked(categories, next) {
            Some(linked) => {
                let rest_tail = rest.drop_first();
                let short_tail = short.drop_first();
                assert forall|j: int| 0 <= j < short_tail.len() implies (#[trigger] short_tail[j]).0
                    == rest_tail[j].0 by {
                    assert(short_tail[j] == short[j + 1]);
                }
                assert forall|j: int| 0 <= j < short_tail.len() - 1 implies (
                #[trigger] short_tail[j]).1 == rest_tail[j].1 by {
                    assert(short_tail[j] == short[j + 1]);
                }
                assert(short[0].0 == rest[0].0);
                if short.len() > 1 {
                    assert(short[0].1 == rest[0].1);
                    lemma_chain_nodes_truncated(
                        categories,
                        linked,
                        rest[0].0,
                        rest[0].1,
                        rest_tail,
                        short_tail,
                    );
                    lemma_chain_nodes_len(categories, linked, rest[0].0, rest[0].1, rest_tail);
                    let all_tail = chain_nodes(categories, linked, rest[0].0, rest[0].1, rest_tail);
                    let kept: int = if all_tail.len() <= short_tail.len() {
                        all_tail.len() as int
                    } else {
                        short_tail.len() as int + 1
                    };
                    assert(some =~= seq![(code, formatter)] + all_tail.take(kept));
                    assert(all =~= seq![(code, formatter)] + all_tail);
                    assert(some =~= all.take(kept + 1));
                } else {
                    assert(short_tail.len() == 0);
                    lemma_chain_nodes_len(categories, linked, rest[0].0, rest[0].1, rest_tail);
                    let all_tail = chain_nodes(categories, linked, rest[0].0, rest[0].1, rest_tail);
                    assert(chain_nodes(categories, linked, short[0].0, short[0].1, short_tail)
                        =~= seq![(rest[0].0, linked)]);
                    assert(all =~= seq![(code, formatter)] + all_tail);
                    assert(some =~= seq![(code, formatter)] + seq![(rest[0].0, linked)]);
                    assert(some =~= all.take(2));
                }
            },
            None => {
                assert(some =~= all.take(1));
            },
        }
    }
}

/// The walk over an error that was just chained: it starts with the new
/// code, and behind it come the codes of the walk over the error as it was
/// before, in the same order and with the same categories. Of those only
/// the first four are left, so a cause that was the fourth is gone.
///
/// `newer` is the formatter of the new code's category, whose link
/// `index` leads in `categories` to `older`, the formatter of the category
/// of the code that was current before.
pub proof fn lemma_nodes_after_chain(
    categories: Seq<ErrorCodeFormatter>,
    newer: ErrorCodeFormatter,
    older: ErrorCodeFormatter,
    fields: ChainFields,
    code: ErrorCode,
    index: u8,
)
    requires
        fields.wf(),
        index < 6,
        newer.linked(categories, Some(index)) == Some(older),
    ensures
        error_nodes(categories, newer, fields.push_front(code, link_field(index))) == seq![
            (code, newer),
        ] + error_nodes(categories, older, fields).take(
            if error_nodes(categories, older, fields).len() <= 4 {
                error_nodes(categories, older, fields).len() as int
            } else {
                4
            },
        ),
{
    let link = link_field(index);
    let pushed = fields.push_front(code, link);
    let before = error_nodes(categories, older, fields);
    assert(pushed.links[0] == link);
    assert(pushed.links[1] == fields.links[0]);
    assert(pushed.links[2] == fields.links[1]);
    assert(pushed.links[3] == fields.links[2]);
    assert(pushed.codes[0] == code);
    assert(pushed.codes[1] == fields.codes[0]);
    assert(pushed.codes[2] == fields.codes[1]);
    assert(pushed.codes[3] == fields.codes[2]);
    assert(pushed.codes[4] == fields.codes[3]);
    let items = pushed.items();
    let short = items.drop_first();
    let rest = fields.items();
    assert(link_index(link) == Some(index));
    assert(items.len() >= 1);
    assert(items[0] == (fields.code(), link_index(fields.links[0])));
    assert(short.len() <= rest.len());
    assert forall|j: int| 0 <= j < short.len() implies (#[trigger] short[j]).0 == rest[j].0 by {
        assert(short[j] == items[j + 1]);
    }
    assert forall|j: int| 0 <= j < short.len() - 1 implies (#[trigger] short[j]).1 == rest[j].1 by {
        assert(short[j] == items[j + 1]);
    }
    lemma_chain_nodes_truncated(
        categories,
        older,
        fields.code(),
        link_index(fields.links[0]),
        rest,
        short,
    );
    lemma_chain_nodes_len(categories, older, fields.code(), link_index(fields.links[0]), rest);
    let after = chain_nodes(categories, older, fields.code(), link_index(fields.links[0]), short);
    assert(error_nodes(categories, newer, pushed) =~= seq![(code, newer)] + after);
    if fields.chain_len() < 4 {
        assert(short.len() == rest.len());
        assert(after =~= before.take(before.len() as int));
    } else {
        assert(short.len() == 3);
    }
}

/// The record of an error that began as the code `codes[0]` and was then
/// chained with each further code of `codes` in turn, the code at `k + 1`
/// through link `indices[k]` of its category.
pub open spec fn chain_of(codes: Seq<ErrorCode>, indices: Seq<u8>) -> ChainFields
    decreases indices.len(),
{
    if indices.len() == 0 {
        ChainFields::single(codes[0])
    } else {
        chain_of(codes.drop_last(), indices.drop_last()).push_front(
            codes.last(),
            link_field(indices.last()),
        )
    }
}

/// The last five of `codes` with their formatters, the last first.
pub open spec fn newest_first(codes: Seq<ErrorCode>, formatters: Seq<ErrorCodeFormatter>) -> Seq<
    (ErrorCode, ErrorCodeFormatter),
> {
    Seq::new(
        if codes.len() <= 5 {
            codes.len()
        } else {
            5
        },
        |j: int| (codes[codes.len() - 1 - j], formatters[codes.len() - 1 - j]),
    )
}

/// A walk over an error yields the codes it was chained from, newest
/// first, each with its own category, as long as they are no more than
/// five; of more it yields the newest five.
///
/// `formatters[k]` is the formatter of the category of `codes[k]`, and
/// link `indices[k]` of `formatters[k + 1]` leads to it in `categories`.
pub proof fn lemma_nodes_of_chain(
    categories: Seq<ErrorCodeFormatter>,
    formatters: Seq<ErrorCodeFormatter>,
    codes: Seq<ErrorCode>,
    indices: Seq<u8>,
)
    requires
        formatters.len() == codes.len(),
        codes.len() == indices.len() + 1,
        forall|k: int| 0 <= k < codes.len() ==> #[trigger] codes[k] < 16,
        forall|k: int| 0 <= k < indices.len() ==> #[trigger] indices[k] < 6,
        forall|k: int|
            0 <= k < indices.len() ==> (#[trigger] formatters[k + 1]).linked(
                categories,
                Some(indices[k]),
            ) == Some(formatters[k]),
    ensures
        chain_of(codes, indices).wf(),
        chain_of(codes, indices).contiguous(),
        chain_of(codes, indices).code() == codes.last(),
        chain_of(codes, indices).chain_len() == if indices.len() <= 4 {
            indices.len()
        } else {
            4
        },
        error_nodes(categories, formatters.last(), chain_of(codes, indices)) == newest_first(
            codes,
            formatters,
        ),
    decreases indices.len(),
{
    let fields = chain_of(codes, indices);
    if indices.len() == 0 {
        ChainFields::lemma_single(codes[0]);
        assert(fields.items() =~= Seq::<(ErrorCode, Option<u8>)>::empty());
        assert(error_nodes(categories, formatters.last(), fields) =~= newest_first(
            codes,
            formatters,
        ));
    } else {
        let codes_before = codes.drop_last();
        let indices_before = indices.drop_last();
        let formatters_before = formatters.drop_last();
        assert forall|k: int| 0 <= k < codes_before.len() implies #[trigger] codes_before[k]
            < 16 by {
            assert(codes_before[k] == codes[k]);
        }
        assert forall|k: int| 0 <= k < indices_before.len() implies #[trigger] indices_before[k]
            < 6 by {
            assert(indices_before[k] == indices[k]);
        }
        assert forall|k: int| 0 <= k < indices_before.len() implies (
        #[trigger] formatters_before[k + 1]).linked(categories, Some(indices_before[k])) == Some(
            formatters_before[k],
        ) by {
            assert(formatters_before[k + 1] == formatters[k + 1]);
            assert(formatters_before[k] == formatters[k]);
            assert(indices_before[k] == indices[k]);
        }
        lemma_nodes_of_chain(categories, formatters_before, codes_before, indices_before);
        let before = chain_of(codes_before, indices_before);
        let last: int = indices.len() - 1;
        assert(formatters_before.last() == formatters[last]);
        assert(formatters.last() == formatters[last + 1]);
        before.lemma_push_front_len(codes.last(), link_field(indices.last()));
        lemma_nodes_after_chain(
            categories,
            formatters.last(),
            formatters_before.last(),
            before,
            codes.last(),
            indices.last(),
        );
        let nodes_before = newest_first(codes_before, formatters_before);
        let kept: int = if nodes_before.len() <= 4 {
            nodes_before.len() as int
        } else {
            4
        };
        assert(seq![(codes.last(), formatters.last())] + nodes_before.take(kept) =~= newest_first(
            codes,
            formatters,
        ));
    }
}

/// Whether `items` holds `code` as a code of the category numbered `id`.
pub open spec fn caused_by_in(
    items: Seq<(ErrorCode, ErrorCategoryHandle)>,
    id: CategoryId,
    code: ErrorCode,
) -> bool {
    exists|i: int| 0 <= i < items.len() && (#[trigger] items[i]).1.id == id && items[i].0 == code
}

/// The first code in `items` that belongs to the category numbered `id`.
pub open spec fn code_of_category_in(
    items: Seq<(ErrorCode, ErrorCategoryHandle)>,
    id: CategoryId,
) -> Option<ErrorCode>
    decreases items.len(),
{
    if items.len() == 0 {
        None
    } else if items[0].1.id == id {
        Some(items[0].0)
    } else {
        code_of_category_in(items.drop_first(), id)
    }
}

/// Whether the rest of the walk `iter` yields `error_code` as a code of
/// the category of `category_handle`.
pub fn yields_code(
    iter: ErrorIter<'_>,
    category_handle: ErrorCategoryHandle,
    error_code: ErrorCode,
) -> (found: bool)
    ensures
        found == caused_by_in(iter.remaining(), category_handle.id, error_code),
{
    let ghost all = iter.remaining();
    let mut walk = iter;
    let ghost mut seen: int = 0;
    assert(all.skip(0) =~= all);
    loop
        invariant
            all == iter.remaining(),
            0 <= seen <= all.len(),
            walk.remaining() == all.skip(seen),
            forall|i: int|
                0 <= i < seen ==> !((#[trigger] all[i]).1.id == category_handle.id && all[i].0
                    == error_code),
        ensures
            seen == all.len(),
        decreases all.len() - seen,
    {
        let ghost before = walk.remaining();
        match walk.next() {
            Some((ec, handle)) => {
                assert(before.len() > 0);
                assert(before[0] == all[seen]);
                if handle.id == category_handle.id && ec == error_code {
                    assert(all[seen].1.id == category_handle.id && all[seen].0 == error_code);
                    return true;
                }
                proof {
                    assert(before.drop_first() =~= all.skip(seen + 1));
                    seen = seen + 1;
                }
            },
            None => {
                assert(before.len() == 0);
                break ;
            },
        }
    }
    false
}

/// The first code that the rest of the walk `iter` yields for the category
/// of `category_handle`.
pub fn first_code_of(iter: ErrorIter<'_>, category_handle: ErrorCategoryHandle) -> (found: Option<
    ErrorCode,
>)
    ensures
        found == code_of_category_in(iter.remaining(), category_handle.id),
{
    let mut walk = iter;
    loop
        invariant
            code_of_category_in(iter.remaining(), category_handle.id) == code_of_category_in(
                walk.remaining(),
                category_handle.id,
            ),
        ensures
            walk.remaining().len() == 0,
        decreases walk.remaining().len(),
    {
        let ghost before = walk.remaining();
        match walk.next() {
            Some((ec, handle)) => {
                assert(before.len() > 0);
                if handle.id == category_handle.id {
                    return Some(ec);
                }
            },
            None => {
                assert(before.len() == 0);
                break ;
            },
        }
    }
    None
}

/// An error of category `C` with the chain of its causes.
///
/// The value is the packed record alone: the category of the current code
/// is known from the type.
pub struct Error<C>(ErrorData, PhantomData<C>);

impl<C: ErrorCategory> Clone for Error<C> {
    fn clone(&self) -> (copy: Self)
        ensures
            copy == *self,
    {
        Error(self.0, PhantomData)
    }
}

impl<C: ErrorCategory> Copy for Error<C> {

}

impl<C> Error<C> {
    /// The record of the error.
    pub closed spec fn data(self) -> ErrorData {
        self.0
    }

    /// An error with the current code `error_code` and no causes. Nothing
    /// checks that `error_code` is a code of `C`.
    pub fn new_raw(error_code: ErrorCode) -> (error: Error<C>)
        ensures
            error.data() == ErrorData::spec_new(error_code),
            error.data()@ == ChainFields::single(error_code % 16),
    {
        Error(ErrorData::new(error_code), PhantomData)
    }

    /// The error that holds the record `error_data`.
    pub closed spec fn spec_from_raw(error_data: ErrorData) -> Error<C> {
        Error(error_data, PhantomData)
    }

    /// The error that holds the record `error_data`. Nothing checks that
    /// the record's current code is a code of `C`, nor that its links fit
    /// the link tables.
    pub fn from_raw(error_data: ErrorData) -> (error: Error<C>)
        ensures
            error == Self::spec_from_raw(error_data),
            error.data() == error_data,
    {
        Error(error_data, PhantomData)
    }

    /// The number of causes an error can carry.
    pub fn chain_capacity(&self) -> (capacity: usize)
        ensures
            capacity == ERROR_CHAIN_LEN,
    {
        ERROR_CHAIN_LEN
    }

    /// Gives up the error for its record.
    pub fn into_data(self) -> (error_data: ErrorData)
        ensures
            error_data == self.data(),
    {
        self.0
    }
}

impl<C: ErrorCategory> Error<C> {
    /// An error with the current code `error_code` and no causes.
    pub fn new(error_code: C) -> (error: Error<C>)
        ensures
            error.data()@ == ChainFields::single(error.data()@.code()),
            <C as IntoSpec<ErrorCode>>::obeys_into_spec() ==> error.data() == ErrorData::spec_new(
                error_code.into_spec(),
            ) && error.data()@.code() == error_code.into_spec() % 16,
    {
        Error(ErrorData::new(error_code.into()), PhantomData)
    }

    /// The current code.
    pub fn code(&self) -> (code: C)
        ensures
            <C as FromSpec<ErrorCode>>::obeys_from_spec() ==> code == C::from_spec(
                self.data()@.code(),
            ),
    {
        C::from(self.0.code())
    }

    /// The number of causes.
    pub fn chain_len(&self) -> (len: usize)
        ensures
            len == self.data()@.chain_len(),
    {
        self.0.chain_len()
    }

    /// The codes of this error with the formatters of their categories,
    /// from the current code to the oldest cause that `categories` leads
    /// to.
    pub open spec fn nodes(self, categories: Seq<ErrorCodeFormatter>) -> Seq<
        (ErrorCode, ErrorCodeFormatter),
    > {
        error_nodes(categories, ErrorCodeFormatter::of::<C>(), self.data()@)
    }

    /// Whether this error is, or was caused by, the code numbered `code`
    /// of the category of `category_handle`.
    pub fn caused_by_code(
        &self,
        categories: &[ErrorCodeFormatter],
        category_handle: ErrorCategoryHandle,
        code: ErrorCode,
    ) -> (found: bool)
        ensures
            found == caused_by_in(node_handles(self.nodes(categories@)), category_handle.id, code),
    {
        yields_code(self.iter(categories), category_handle, code)
    }

    /// Whether this error is, or was caused by, `error_code`.
    pub fn caused_by<T: ErrorCategory>(
        &self,
        categories: &[ErrorCodeFormatter],
        error_code: T,
    ) -> (found: bool)
        ensures
            <T as IntoSpec<ErrorCode>>::obeys_into_spec() ==> found == caused_by_in(
                node_handles(self.nodes(categories@)),
                T::ID,
                error_code.into_spec(),
            ),
    {
        let error_code: ErrorCode = error_code.into();
        let category_handle = ErrorCategoryHandle::new::<T>();
        self.caused_by_code(categories, category_handle, error_code)
    }

    /// The newest code of this error that belongs to the category of
    /// `category_handle`.
    pub fn raw_code_of_category(
        &self,
        categories: &[ErrorCodeFormatter],
        category_handle: ErrorCategoryHandle,
    ) -> (found: Option<ErrorCode>)
        ensures
            found == code_of_category_in(node_handles(self.nodes(categories@)), category_handle.id),
    {
        first_code_of(self.iter(categories), category_handle)
    }

    /// The newest code of this error that belongs to category `T`, or
    /// `None` if no code of `T` is among its causes.
    pub fn code_of_category<T: ErrorCategory>(&self, categories: &[ErrorCodeFormatter]) -> (found:
        Option<T>)
        ensures
            found.is_some() == code_of_category_in(
                node_handles(self.nodes(categories@)),
                T::ID,
            ).is_some(),
            found.is_some() && <T as FromSpec<ErrorCode>>::obeys_from_spec() ==> found == Some(
                T::from_spec(
                    code_of_category_in(node_handles(self.nodes(categories@)), T::ID).unwrap(),
                ),
            ),
    {
        let category_handle = ErrorCategoryHandle::new::<T>();
        match self.raw_code_of_category(categories, category_handle) {
            Some(ec) => Some(T::from(ec)),
            None => None,
        }
    }

    /// Writes this error to `f`: the line of the current code, and below
    /// it one line per cause, from newest to oldest, each behind a dash.
    /// The first write that fails ends the rendering and is handed on.
    pub fn fmt(&self, categories: &[ErrorCodeFormatter], f: &mut TextSink) -> (res: Result<
        (),
        FmtError,
    >)
        ensures
            wrote(*old(f), *final(f), rendered(self.nodes(categories@)), res),
    {
        proof {
            DynError::lemma_raw_parts(self.data(), ErrorCodeFormatter::of::<C>());
        }
        DynError::from(*self).fmt(categories, f)
    }

    /// The text of this error: the line of the current code, and below it
    /// one line per cause, from newest to oldest, each behind a dash.
    pub fn to_text(&self, categories: &[ErrorCodeFormatter]) -> (text: String)
        ensures
            text@ == rendered(self.nodes(categories@)),
    {
        proof {
            DynError::lemma_raw_parts(self.data(), ErrorCodeFormatter::of::<C>());
        }
        DynError::from(*self).to_text(categories)
    }

    /// A walk over the codes of this error, from the current code to the
    /// oldest cause, each with the handle of its category.
    pub fn iter<'a>(&self, categories: &'a [ErrorCodeFormatter]) -> (iter: ErrorIter<'a>)
        ensures
            iter.nodes() == self.nodes(categories@),
    {
        ErrorIter::new(
            categories,
            ErrorCodeFormatter::new::<C>(),
            self.0.code(),
            self.0.first_formatter_index(),
            self.0.iter_chain(),
        )
    }
}

/// Chains the record `data` with `error_code`, whose category links to the
/// category of the record's current code in slot `index` of its link
/// table.
pub fn chain_record<O: ErrorCategory>(data: ErrorData, error_code: O, index: u8) -> (error: Error<
    O,
>)
    ensures
        error.data()@ == data@.push_front(error.data()@.code(), link_field(index)),
        <O as IntoSpec<ErrorCode>>::obeys_into_spec() ==> error.data()@.code()
            == error_code.into_spec() % 16,
{
    let mut data: ErrorData = data;
    ErrorData::chain(&mut data, error_code.into(), index);
    Error(data, PhantomData)
}

/// What chaining `source` with `error_code` gives: the record of `source`
/// with `error_code` pushed to its front, under the link that leads from
/// the category of `error_code` back to that of `source`.
pub open spec fn chained<O: ErrorCategory, Tag, S: ChainError<O, Tag>>(
    source: S,
    error_code: O,
    error: Error<O>,
) -> bool {
    &&& error.data()@.links[0] == link_field(source.link().unwrap())
    &&& source.conversions_obey() ==> error.data()@ == source.source()@.push_front(
        error_code.into_spec() % 16,
        link_field(source.link().unwrap()),
    )
}

/// Chaining of an error, or of a bare code, with a code of category `O`
/// that links to the category of the error.
pub trait ChainError<O: ErrorCategory, Tag>: Sized {
    /// The record that the new code is chained to.
    spec fn source(self) -> ErrorData;

    /// The slot of the link table of `O` that holds the category of this
    /// error, or `None` if `O` does not link to it.
    spec fn link(self) -> Option<u8>;

    /// Whether the conversions between the codes and the categories
    /// involved have a specification.
    spec fn conversions_obey(self) -> bool;

    /// Chains this error with `error_code`: the current code becomes the
    /// newest cause and `error_code` the current code. A full chain loses
    /// its oldest cause.
    fn chain(self, error_code: O) -> (error: Error<O>)
        requires
            self.link().is_some(),
        ensures
            error.data()@.links[0] == link_field(self.link().unwrap()),
            self.conversions_obey() ==> error.data()@ == self.source()@.push_front(
                error_code.into_spec() % 16,
                link_field(self.link().unwrap()),
            ),
    ;
}

/// Chaining of the error in a `Result`, if it holds one.
pub trait ResultChainError<T, O: ErrorCategory, Tag>: Sized {
    /// Whether the error, if there is one, is of a category that `O`
    /// links to.
    spec fn linked(self) -> bool;

    /// What `chain_err` gives for this result and `error_code`.
    spec fn chained_err(self, error_code: O, res: Result<T, Error<O>>) -> bool;

    /// Chains the error with `error_code` if this is an `Err`, and hands
    /// on the value if it is an `Ok`.
    fn chain_err(self, error_code: O) -> (res: Result<T, Error<O>>)
        requires
            self.linked(),
        ensures
            self.chained_err(error_code, res),
    ;
}

impl<C: ErrorCategory> ChainError<C, (marker::L0, marker::Error_t)> for Error<C::L0> {
    open spec fn source(self) -> ErrorData {
        self.data()
    }

    open spec fn link(self) -> Option<u8> {
        Some(0u8)
    }

    open spec fn conversions_obey(self) -> bool {
        <C as IntoSpec<ErrorCode>>::obeys_into_spec()
    }

    fn chain(self, error_code: C) -> (error: Error<C>) {
        chain_record(self.0, error_code, 0)
    }
}

impl<C> ChainError<C, (marker::L0, marker::Concrete_t)> for C::L0 where
    C: ErrorCategory,
    C::L0: ErrorCategory,
 {
    open spec fn source(self) -> ErrorData {
        ErrorData::spec_new(self.into_spec())
    }

    open spec fn link(self) -> Option<u8> {
        Some(0u8)
    }

    open spec fn conversions_obey(self) -> bool {
        <C as IntoSpec<ErrorCode>>::obeys_into_spec() && <C::L0 as IntoSpec<
            ErrorCode,
        >>::obeys_into_spec()
    }

    fn chain(self, error_code: C) -> (error: Error<C>) {
        chain_record(Error::<C::L0>::new(self).0, error_code, 0)
    }
}

impl<C: ErrorCategory> ChainError<C, (marker::L1, marker::Error_t)> for Error<C::L1> {
    open spec fn source(self) -> ErrorData {
        self.data()
    }

    open spec fn link(self) -> Option<u8> {
        Some(1u8)
    }

    open spec fn conversions_obey(self) -> bool {
        <C as IntoSpec<ErrorCode>>::obeys_into_spec()
    }

    fn chain(self, error_code: C) -> (error: Error<C>) {
        chain_record(self.0, error_code, 1)
    }
}

impl<C> ChainError<C, (marker::L1, marker::Concrete_t)> for C::L1 where
    C: ErrorCategory,
    C::L1: ErrorCategory,
 {
    open spec fn source(self) -> ErrorData {
        ErrorData::spec_new(self.into_spec())
    }

    open spec fn link(self) -> Option<u8> {
        Some(1u8)
    }

    open spec fn conversions_obey(self) -> bool {
        <C as IntoSpec<ErrorCode>>::obeys_into_spec() && <C::L1 as IntoSpec<
            ErrorCode,
        >>::obeys_into_spec()
    }

    fn chain(self, error_code: C) -> (error: Error<C>) {
        chain_record(Error::<C::L1>::new(self).0, error_code, 1)
    }
}

impl<C: ErrorCategory> ChainError<C, (marker::L2, marker::Error_t)> for Error<C::L2> {
    open spec fn source(self) -> ErrorData {
        self.data()
    }

    open spec fn link(self) -> Option<u8> {
        Some(2u8)
    }

    open spec fn conversions_obey(self) -> bool {
        <C as IntoSpec<ErrorCode>>::obeys_into_spec()
    }

    fn chain(self, error_code: C) -> (error: Error<C>) {
        chain_record(self.0, error_code, 2)
    }
}

impl<C> ChainError<C, (marker::L2, marker::Concrete_t)> for C::L2 where
    C: ErrorCategory,
    C::L2: ErrorCategory,
 {
    open spec fn source(self) -> ErrorData {
        ErrorData::spec_new(self.into_spec())
    }

    open spec fn link(self) -> Option<u8> {
        Some(2u8)
    }

    open spec fn conversions_obey(self) -> bool {
        <C as IntoSpec<ErrorCode>>::obeys_into_spec() && <C::L2 as IntoSpec<
            ErrorCode,
        >>::obeys_into_spec()
    }

    fn chain(self, error_code: C) -> (error: Error<C>) {
        chain_record(Error::<C::L2>::new(self).0, error_code, 2)
    }
}

impl<C: ErrorCategory> ChainError<C, (marker::L3, marker::Error_t)> for Error<C::L3> {
    open spec fn source(self) -> ErrorData {
        self.data()
    }

    open spec fn link(self) -> Option<u8> {
        Some(3u8)
    }

    open spec fn conversions_obey(self) -> bool {
        <C as IntoSpec<ErrorCode>>::obeys_into_spec()
    }

    fn chain(self, error_code: C) -> (error: Error<C>) {
        chain_record(self.0, error_code, 3)
    }
}

impl<C> ChainError<C, (marker::L3, marker::Concrete_t)> for C::L3 where
    C: ErrorCategory,
    C::L3: ErrorCategory,
 {
    open spec fn source(self) -> ErrorData {
        ErrorData::spec_new(self.into_spec())
    }

    open spec fn link(self) -> Option<u8> {
        Some(3u8)
    }

    open spec fn conversions_obey(self) -> bool {
        <C as IntoSpec<ErrorCode>>::obeys_into_spec() && <C::L3 as IntoSpec<
            ErrorCode,
        >>::obeys_into_spec()
    }

    fn chain(self, error_code: C) -> (error: Error<C>) {
        chain_record(Error::<C::L3>::new(self).0, error_code, 3)
    }
}

impl<C: ErrorCategory> ChainError<C, (marker::L4, marker::Error_t)> for Error<C::L4> {
    open spec fn source(self) -> ErrorData {
        self.data()
    }

    open spec fn link(self) -> Option<u8> {
        Some(4u8)
    }

    open spec fn conversions_obey(self) -> bool {
        <C as IntoSpec<ErrorCode>>::obeys_into_spec()
    }

    fn chain(self, error_code: C) -> (error: Error<C>) {
        chain_record(self.0, error_code, 4)
    }
}

impl<C> ChainError<C, (marker::L4, marker::Concrete_t)> for C::L4 where
    C: ErrorCategory,
    C::L4: ErrorCategory,
 {
    open spec fn source(self) -> ErrorData {
        ErrorData::spec_new(self.into_spec())
    }

    open spec fn link(self) -> Option<u8> {
        Some(4u8)
    }

    open spec fn conversions_obey(self) -> bool {
        <C as IntoSpec<ErrorCode>>::obeys_into_spec() && <C::L4 as IntoSpec<
            ErrorCode,
        >>::obeys_into_spec()
    }

    fn chain(self, error_code: C) -> (error: Error<C>) {
        chain_record(Error::<C::L4>::new(self).0, error_code, 4)
    }
}

impl<C: ErrorCategory> ChainError<C, (marker::L5, marker::Error_t)> for Error<C::L5> {
    open spec fn source(self) -> ErrorData {
        self.data()
    }

    open spec fn link(self) -> Option<u8> {
        Some(5u8)
    }

    open spec fn conversions_obey(self) -> bool {
        <C as IntoSpec<ErrorCode>>::obeys_into_spec()
    }

    fn chain(self, error_code: C) -> (error: Error<C>) {
        chain_record(self.0, error_code, 5)
    }
}

impl<C> ChainError<C, (marker::L5, marker::Concrete_t)> for C::L5 where
    C: ErrorCategory,
    C::L5: ErrorCategory,
 {
    open spec fn source(self) -> ErrorData {
        ErrorData::spec_new(self.into_spec())
    }

    open spec fn link(self) -> Option<u8> {
        Some(5u8)
    }

    open spec fn conversions_obey(self) -> bool {
        <C as IntoSpec<ErrorCode>>::obeys_into_spec() && <C::L5 as IntoSpec<
            ErrorCode,
        >>::obeys_into_spec()
    }

    fn chain(self, error_code: C) -> (error: Error<C>) {
        chain_record(Error::<C::L5>::new(self).0, error_code, 5)
    }
}

impl<OK, ERR, O, TAG> ResultChainError<OK, O, TAG> for Result<OK, ERR> where
    O: ErrorCategory,
    ERR: ChainError<O, TAG>,
 {
    open spec fn linked(self) -> bool {
        match self {
            Err(err) => err.link().is_some(),
            Ok(_) => true,
        }
    }

    open spec fn chained_err(self, error_code: O, res: Result<OK, Error<O>>) -> bool {
        match self {
            Err(err) => res.is_err() && chained::<O, TAG, ERR>(err, error_code, res->Err_0),
            Ok(val) => res == Ok::<OK, Error<O>>(val),
        }
    }

    fn chain_err(self, error_code: O) -> (res: Result<OK, Error<O>>) {
        match self {
            Err(err) => Err(err.chain(error_code)),
            Ok(val) => Ok(val),
        }
    }
}

impl<C: ErrorCategory> PartialEq for Error<C> {
    fn eq(&self, other: &Error<C>) -> (equal: bool) {
        self.0 == other.0
    }
}

impl<C: ErrorCategory> Eq for Error<C> {

}

impl<C: ErrorCategory> PartialEqSpecImpl for Error<C> {
    open spec fn obeys_eq_spec() -> bool {
        true
    }

    open spec fn eq_spec(&self, other: &Error<C>) -> bool {
        self.data() == other.data()
    }
}

impl<C: ErrorCategory> From<C> for Error<C> {
    fn from(error_code: C) -> (error: Error<C>) {
        Error::new(error_code)
    }
}

impl<C: ErrorCategory> FromSpecImpl<C> for Error<C> {
    open spec fn obeys_from_spec() -> bool {
        <C as IntoSpec<ErrorCode>>::obeys_into_spec()
    }

    open spec fn from_spec(error_code: C) -> Error<C> {
        Error::spec_from_raw(ErrorData::spec_new(error_code.into_spec()))
    }
}

impl<C: ErrorCategory> From<Error<C>> for ErrorData {
    fn from(error: Error<C>) -> (error_data: ErrorData) {
        error.0
    }
}

impl<C: ErrorCategory> FromSpecImpl<Error<C>> for ErrorData {
    open spec fn obeys_from_spec() -> bool {
        true
    }

    open spec fn from_spec(error: Error<C>) -> ErrorData {
        error.data()
    }
}

} // verus!
