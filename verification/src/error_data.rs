use crate::ErrorCode;
use vstd::prelude::*;

verus! {

/// The number of causes an error can carry. Chaining past this length
/// drops the oldest cause.
pub const ERROR_CHAIN_LEN: usize = 4;

/// Mask of the current error code, the lowest code field.
pub const CODE_MASK: u32 = 0x0000_000f;

/// Mask of the last code field, the oldest cause of a full chain.
pub const LAST_CODE_MASK: u32 = 0x000f_0000;

/// Mask of all five code fields.
pub const ALL_CODE_MASK: u32 = 0x000f_ffff;

/// Width of a code field in bits.
pub const CODE_WIDTH: u32 = 4;

/// Mask of the first link field.
pub const FORMATTER_MASK: u32 = 0x0070_0000;

/// Mask of the last link field.
pub const LAST_FORMATTER_MASK: u32 = 0xe000_0000;

/// Mask of all four link fields.
pub const ALL_FORMATTER_MASK: u32 = 0xfff0_0000;

/// Mask of a link field that has been moved to the lowest bits.
pub const FORMATTER_FIELD: u32 = 0x0000_0007;

/// Bit at which the first link field starts.
pub const FORMATTER_BITOFFSET: u32 = 20;

/// Width of a link field in bits.
pub const FORMATTER_IDX_WIDTH: u32 = 3;

/// The fields of a packed record, unpacked.
///
/// `codes` holds the five code fields, the current code first and the
/// oldest cause last. `links` holds the four link fields, one per cause: a
/// field is zero when the cause is absent, and otherwise one more than the
/// index of the cause's category in the link table of the category of the
/// code before it.
pub struct ChainFields {
    pub codes: Seq<ErrorCode>,
    pub links: Seq<u8>,
}

/// The link index stored in a link field, if the field is present.
pub open spec fn link_index(field: u8) -> Option<u8> {
    if field > 0 {
        Some((field - 1) as u8)
    } else {
        None
    }
}

/// The link field that stores `category_index`: one more than the index,
/// reduced to three bits.
pub open spec fn link_field(category_index: u8) -> u8 {
    ((category_index + 1) % 8) as u8
}

/// The fields of the packed word `word`.
pub open spec fn unpack(word: u32) -> ChainFields {
    ChainFields {
        codes: seq![
            (word % 16) as u8,
            (word / 0x10 % 16) as u8,
            (word / 0x100 % 16) as u8,
            (word / 0x1000 % 16) as u8,
            (word / 0x1_0000 % 16) as u8,
        ],
        links: seq![
            (word / 0x10_0000 % 8) as u8,
            (word / 0x80_0000 % 8) as u8,
            (word / 0x400_0000 % 8) as u8,
            (word / 0x2000_0000 % 8) as u8,
        ],
    }
}

impl ChainFields {
    /// Five codes of four bits and four links of three bits.
    pub open spec fn wf(self) -> bool {
        &&& self.codes.len() == 5
        &&& self.links.len() == 4
        &&& forall|i: int| 0 <= i < 5 ==> #[trigger] self.codes[i] < 16
        &&& forall|i: int| 0 <= i < 4 ==> #[trigger] self.links[i] < 8
    }

    /// A record with the current code `code` and no causes.
    pub open spec fn single(code: ErrorCode) -> ChainFields {
        ChainFields { codes: seq![code, 0u8, 0u8, 0u8, 0u8], links: seq![0u8, 0u8, 0u8, 0u8] }
    }

    /// The current code.
    pub open spec fn code(self) -> ErrorCode {
        self.codes[0]
    }

    /// The number of causes: the link fields that are present before the
    /// first absent one.
    pub open spec fn chain_len(self) -> nat {
        if self.links[0] == 0 {
            0
        } else if self.links[1] == 0 {
            1
        } else if self.links[2] == 0 {
            2
        } else if self.links[3] == 0 {
            3
        } else {
            4
        }
    }

    /// The causes, newest first, each with the link index that leads to
    /// its category.
    pub open spec fn chain(self) -> Seq<(ErrorCode, u8)> {
        Seq::new(self.chain_len(), |i: int| (self.codes[i + 1], (self.links[i] - 1) as u8))
    }

    /// What a walk over the causes yields: each cause's code with the link
    /// index of the cause after it, if there is one.
    pub open spec fn items(self) -> Seq<(ErrorCode, Option<u8>)> {
        Seq::new(
            self.chain_len(),
            |i: int|
                (
                    self.codes[i + 1],
                    if i + 1 < 4 {
                        link_index(self.links[i + 1])
                    } else {
                        None
                    },
                ),
        )
    }

    /// The record after `code` became the current code and the former
    /// current code became the newest cause, stored with `link`.
    pub open spec fn push_front(self, code: ErrorCode, link: u8) -> ChainFields {
        ChainFields {
            codes: seq![code] + self.codes.take(4),
            links: seq![link] + self.links.take(3),
        }
    }

    /// The record with the current code replaced by `code`.
    pub open spec fn with_code(self, code: ErrorCode) -> ChainFields {
        ChainFields { codes: self.codes.update(0, code), links: self.links }
    }

    /// The last cause slot, if it is occupied: the pair that the next
    /// `push_front` drops.
    pub open spec fn back(self) -> Option<(ErrorCode, u8)> {
        if self.links[3] > 0 {
            Some((self.codes[4], (self.links[3] - 1) as u8))
        } else {
            None
        }
    }

    /// No field is set behind the first absent link.
    pub open spec fn contiguous(self) -> bool {
        forall|i: int|
            self.chain_len() <= i < 4 ==> #[trigger] self.links[i] == 0 && self.codes[i + 1] == 0
    }
}

/// An error code and its chain of causes, packed into 32 bits.
///
/// Bits 0 to 19 hold five codes of four bits each: the current code, then
/// the causes from newest to oldest. Bits 20 to 31 hold four link fields of
/// three bits each, one per cause.
#[derive(Clone, Copy, PartialEq, Eq, Structural, Debug)]
pub struct ErrorData {
    data: u32,
}

impl View for ErrorData {
    type V = ChainFields;

    closed spec fn view(&self) -> ChainFields {
        unpack(self.data)
    }
}

/// The four low bits of `value`, as a code field.
pub fn make_code(value: ErrorCode) -> (field: u32)
    ensures
        field == value % 16,
{
    let field: u32 = (value & 0b1111) as u32;
    assert(value & 0b1111 == value % 16) by (bit_vector);
    field
}

/// The three low bits of `value`, as a link field.
pub fn make_formatter_idx(value: u8) -> (field: u32)
    ensures
        field == value % 8,
{
    let field: u32 = (value & 0b0111) as u32;
    assert(value & 0b0111 == value % 8) by (bit_vector);
    field
}

impl ErrorData {
    /// The record with the current code `error_code`, reduced to four
    /// bits, and no causes.
    pub closed spec fn spec_new(error_code: ErrorCode) -> ErrorData {
        ErrorData { data: (error_code % 16) as u32 }
    }

    /// A record with the current code `error_code` and no causes.
    #[verifier::when_used_as_spec(spec_new)]
    pub fn new(error_code: ErrorCode) -> (data: ErrorData)
        ensures
            data == Self::spec_new(error_code),
            data@ == ChainFields::single(error_code % 16),
    {
        let word: u32 = error_code as u32 & CODE_MASK;
        assert(word == error_code % 16 && word / 0x10 == 0) by (bit_vector)
            requires
                word == error_code as u32 & 0xf,
        ;
        assert(unpack(word) =~= ChainFields::single(error_code % 16));
        ErrorData { data: word }
    }

    /// The current code.
    pub fn code(&self) -> (code: ErrorCode)
        ensures
            code == self@.code(),
    {
        let word: u32 = self.data;
        assert(word & 0xf == word % 16) by (bit_vector);
        (self.data & CODE_MASK) as ErrorCode
    }

    /// Replaces the current code with `code` and returns the code it had.
    /// The causes stay as they are.
    pub fn set_code(&mut self, code: ErrorCode) -> (previous: ErrorCode)
        ensures
            previous == old(self)@.code(),
            final(self)@ == old(self)@.with_code(code % 16),
    {
        let word: u32 = self.data;
        let field: u32 = make_code(code);
        let previous: ErrorCode = self.code();
        let updated: u32 = (word & !CODE_MASK) | field;
        assert({
            &&& updated % 16 == field
            &&& updated / 0x10 % 16 == word / 0x10 % 16
            &&& updated / 0x100 % 16 == word / 0x100 % 16
            &&& updated / 0x1000 % 16 == word / 0x1000 % 16
            &&& updated / 0x1_0000 % 16 == word / 0x1_0000 % 16
            &&& updated / 0x10_0000 % 8 == word / 0x10_0000 % 8
            &&& updated / 0x80_0000 % 8 == word / 0x80_0000 % 8
            &&& updated / 0x400_0000 % 8 == word / 0x400_0000 % 8
            &&& updated / 0x2000_0000 % 8 == word / 0x2000_0000 % 8
        }) by (bit_vector)
            requires
                updated == (word & !0xfu32) | field,
                field < 16,
        ;
        assert(unpack(updated).codes =~= unpack(word).with_code(code % 16).codes);
        assert(unpack(updated).links =~= unpack(word).with_code(code % 16).links);
        self.data = updated;
        previous
    }

    /// The link index of the newest cause, if there is a cause.
    pub fn first_formatter_index(&self) -> (index: Option<u8>)
        ensures
            index == link_index(self@.links[0]),
    {
        let word: u32 = self.data;
        let field: u32 = (word & FORMATTER_MASK) >> FORMATTER_BITOFFSET;
        assert(field == word / 0x10_0000 % 8) by (bit_vector)
            requires
                field == (word & 0x0070_0000) >> 20,
        ;
        let fmt_index: u8 = field as u8;
        if fmt_index > 0 {
            Some(fmt_index - 1)
        } else {
            None
        }
    }

    /// The number of causes.
    #[verifier::loop_isolation(false)]
    pub fn chain_len(&self) -> (len: usize)
        ensures
            len == self@.chain_len(),
    {
        let word: u32 = self.data;
        let mut mask: u32 = FORMATTER_MASK;
        let mut fmt_index: usize = 0;
        assert({
            &&& (word & 0x0070_0000 == 0) == (word / 0x10_0000 % 8 == 0)
            &&& (word & 0x0380_0000 == 0) == (word / 0x80_0000 % 8 == 0)
            &&& (word & 0x1c00_0000 == 0) == (word / 0x400_0000 % 8 == 0)
            &&& (word & 0xe000_0000 == 0) == (word / 0x2000_0000 % 8 == 0)
            &&& 0x0070_0000u32 << 3 == 0x0380_0000
            &&& 0x0380_0000u32 << 3 == 0x1c00_0000
            &&& 0x1c00_0000u32 << 3 == 0xe000_0000
        }) by (bit_vector);
        while fmt_index < ERROR_CHAIN_LEN
            invariant
                fmt_index <= 4,
                fmt_index == 0 ==> mask == 0x0070_0000,
                fmt_index == 1 ==> mask == 0x0380_0000,
                fmt_index == 2 ==> mask == 0x1c00_0000,
                fmt_index == 3 ==> mask == 0xe000_0000,
                forall|i: int| 0 <= i < fmt_index ==> self@.links[i] != 0,
            decreases 4 - fmt_index,
        {
            if self.data & mask == 0 {
                return fmt_index;
            }
            if fmt_index + 1 < ERROR_CHAIN_LEN {
                mask = mask << FORMATTER_IDX_WIDTH;
            }
            fmt_index += 1;
        }
        ERROR_CHAIN_LEN
    }

    /// Whether the chain holds as many causes as it can.
    pub fn chain_full(&self) -> (full: bool)
        ensures
            full == (self@.chain_len() == ERROR_CHAIN_LEN),
    {
        self.chain_len() == ERROR_CHAIN_LEN
    }

    /// Makes `error_code` the current code and the former current code the
    /// newest cause, reached through `category_index`.
    ///
    /// Every field moves one slot towards the back. The pair in the last
    /// slot leaves the record; it is returned if that slot was occupied,
    /// which is the case when the chain was full. `error_code` is reduced to
    /// four bits and `category_index + 1` to three bits.
    pub fn push_front(&mut self, error_code: ErrorCode, category_index: u8) -> (back: Option<
        (ErrorCode, u8),
    >)
        ensures
            final(self)@ == old(self)@.push_front(error_code % 16, link_field(category_index)),
            back == old(self)@.back(),
    {
        let word: u32 = self.data;
        let fmt_index_back: u32 = word & LAST_FORMATTER_MASK;
        let ec_back: u32 = (word & LAST_CODE_MASK) >> 16;
        let fmt_back: u32 = fmt_index_back >> 29;
        assert({
            &&& fmt_back == word / 0x2000_0000 % 8
            &&& ec_back == word / 0x1_0000 % 16
            &&& (fmt_index_back > 0) == (fmt_back > 0)
        }) by (bit_vector)
            requires
                fmt_index_back == word & 0xe000_0000,
                ec_back == (word & 0x000f_0000) >> 16,
                fmt_back == fmt_index_back >> 29,
        ;
        let result: Option<(ErrorCode, u8)> = if fmt_index_back > 0 {
            Some((ec_back as ErrorCode, (fmt_back - 1) as u8))
        } else {
            None
        };

        let link: u32 = make_formatter_idx(category_index.wrapping_add(1));
        let code: u32 = make_code(error_code);
        let fmt_indices: u32 = ((word & ALL_FORMATTER_MASK) << FORMATTER_IDX_WIDTH) | (link
            << FORMATTER_BITOFFSET);
        let err_codes: u32 = ((word << CODE_WIDTH) & ALL_CODE_MASK) | code;
        let updated: u32 = fmt_indices | err_codes;
        assert({
            &&& updated % 16 == code
            &&& updated / 0x10 % 16 == word % 16
            &&& updated / 0x100 % 16 == word / 0x10 % 16
            &&& updated / 0x1000 % 16 == word / 0x100 % 16
            &&& updated / 0x1_0000 % 16 == word / 0x1000 % 16
            &&& updated / 0x10_0000 % 8 == link
            &&& updated / 0x80_0000 % 8 == word / 0x10_0000 % 8
            &&& updated / 0x400_0000 % 8 == word / 0x80_0000 % 8
            &&& updated / 0x2000_0000 % 8 == word / 0x400_0000 % 8
        }) by (bit_vector)
            requires
                updated == (((word & 0xfff0_0000) << 3) | (link << 20)) | (((word << 4)
                    & 0x000f_ffff) | code),
                link < 8,
                code < 16,
        ;
        assert(link == link_field(category_index));
        let ghost pushed = unpack(word).push_front(error_code % 16, link_field(category_index));
        assert(unpack(updated).codes =~= pushed.codes);
        assert(unpack(updated).links =~= pushed.links);
        self.data = updated;
        result
    }

    /// Chains this error with `error_code`: the current code becomes the
    /// newest cause, reached through `category_index` in the link table of
    /// the new code's category, and `error_code` becomes the current code.
    /// A full chain loses its oldest cause.
    pub fn chain(&mut self, error_code: ErrorCode, category_index: u8)
        ensures
            final(self)@ == old(self)@.push_front(error_code % 16, link_field(category_index)),
    {
        let _ = self.push_front(error_code, category_index);
    }

    /// A walk over the causes, newest first.
    pub fn iter_chain(&self) -> (iter: ErrorDataChainIter)
        ensures
            iter.remaining() == self@.items(),
    {
        let word: u32 = self.data;
        let error_codes: u32 = (word & ALL_CODE_MASK) >> CODE_WIDTH;
        let formatters: u32 = (word & ALL_FORMATTER_MASK) >> FORMATTER_BITOFFSET;
        assert({
            &&& formatters < 0x1000
            &&& error_codes % 16 == word / 0x10 % 16
            &&& error_codes / 0x10 % 16 == word / 0x100 % 16
            &&& error_codes / 0x100 % 16 == word / 0x1000 % 16
            &&& error_codes / 0x1000 % 16 == word / 0x1_0000 % 16
            &&& formatters % 8 == word / 0x10_0000 % 8
            &&& formatters / 0x8 % 8 == word / 0x80_0000 % 8
            &&& formatters / 0x40 % 8 == word / 0x400_0000 % 8
            &&& formatters / 0x200 % 8 == word / 0x2000_0000 % 8
        }) by (bit_vector)
            requires
                error_codes == (word & 0x000f_ffff) >> 4,
                formatters == (word & 0xfff0_0000) >> 20,
        ;
        assert(walk_fields(error_codes, formatters).items() =~= unpack(word).items());
        ErrorDataChainIter { error_codes, formatters }
    }
}

/// The fields that a walk still has before it: the code fields of the
/// causes not yet visited, behind an unused slot for the current code, and
/// their link fields.
pub open spec fn walk_fields(error_codes: u32, formatters: u32) -> ChainFields {
    ChainFields {
        codes: seq![
            0u8,
            (error_codes % 16) as u8,
            (error_codes / 0x10 % 16) as u8,
            (error_codes / 0x100 % 16) as u8,
            (error_codes / 0x1000 % 16) as u8,
        ],
        links: seq![
            (formatters % 8) as u8,
            (formatters / 0x8 % 8) as u8,
            (formatters / 0x40 % 8) as u8,
            (formatters / 0x200 % 8) as u8,
        ],
    }
}

/// A walk over the causes of a record, newest first.
///
/// Each step yields the code of a cause and the link index of the cause
/// after it, if there is one.
pub struct ErrorDataChainIter {
    error_codes: u32,
    formatters: u32,
}

impl ErrorDataChainIter {
    #[verifier::type_invariant]
    closed spec fn link_fields_only(self) -> bool {
        self.formatters < 0x1000
    }

    /// The items that the walk has yet to yield, in order.
    pub closed spec fn remaining(self) -> Seq<(ErrorCode, Option<u8>)> {
        walk_fields(self.error_codes, self.formatters).items()
    }

    /// Yields the next cause, or `None` once the causes are used up.
    pub fn next(&mut self) -> (item: Option<(ErrorCode, Option<u8>)>)
        ensures
            old(self).remaining().len() == 0 ==> item.is_none() && final(self).remaining()
                == old(self).remaining(),
            old(self).remaining().len() > 0 ==> item == Some(old(self).remaining()[0])
                && final(self).remaining() == old(self).remaining().skip(1),
    {
        proof {
            use_type_invariant(&*self);
        }
        let codes: u32 = self.error_codes;
        let links: u32 = self.formatters;
        let present: u32 = links & FORMATTER_FIELD;
        assert(present == links % 8) by (bit_vector)
            requires
                present == links & 0x7,
        ;
        if present > 0 {
            let ec: u32 = codes & CODE_MASK;
            let rest_codes: u32 = codes >> CODE_WIDTH;
            let rest_links: u32 = links >> FORMATTER_IDX_WIDTH;
            let next_field: u32 = rest_links & FORMATTER_FIELD;
            assert({
                &&& ec == codes % 16
                &&& next_field == rest_links % 8
                &&& rest_links < 0x200
                &&& rest_codes % 16 == codes / 0x10 % 16
                &&& rest_codes / 0x10 % 16 == codes / 0x100 % 16
                &&& rest_codes / 0x100 % 16 == codes / 0x1000 % 16
                &&& rest_links % 8 == links / 0x8 % 8
                &&& rest_links / 0x8 % 8 == links / 0x40 % 8
                &&& rest_links / 0x40 % 8 == links / 0x200 % 8
                &&& rest_links / 0x200 % 8 == 0
            }) by (bit_vector)
                requires
                    ec == codes & 0xf,
                    rest_codes == codes >> 4,
                    rest_links == links >> 3,
                    next_field == rest_links & 0x7,
                    links < 0x1000,
            ;
            let next_fmt_index: Option<u8> = if next_field > 0 {
                Some(next_field as u8 - 1)
            } else {
                None
            };
            assert(walk_fields(rest_codes, rest_links).items() =~= walk_fields(
                codes,
                links,
            ).items().skip(1));
            self.error_codes = rest_codes;
            self.formatters = rest_links;
            Some((ec as ErrorCode, next_fmt_index))
        } else {
            None
        }
    }
}

/// The record reached from `start` by the pushes in `steps`, applied in
/// order. Each step is a code and the link field stored with the code it
/// displaces.
pub open spec fn pushed_all(start: ChainFields, steps: Seq<(ErrorCode, u8)>) -> ChainFields
    decreases steps.len(),
{
    if steps.len() == 0 {
        start
    } else {
        pushed_all(start, steps.drop_last()).push_front(steps.last().0, steps.last().1)
    }
}

impl ErrorData {
    /// A new record holds its code, reduced to four bits, and nothing
    /// else.
    pub proof fn lemma_new_fields(error_code: ErrorCode)
        ensures
            Self::spec_new(error_code)@ == ChainFields::single(error_code % 16),
    {
        let word: u32 = (error_code % 16) as u32;
        assert(unpack(word) =~= ChainFields::single(error_code % 16));
    }

    /// Every record unpacks to five codes below 16 and four links below 8.
    pub proof fn lemma_fields_wf(self)
        ensures
            self@.wf(),
    {
    }

    /// Two records with the same fields are the same word.
    pub proof fn lemma_fields_determine_record(self, other: ErrorData)
        requires
            self@ == other@,
        ensures
            self == other,
    {
        let a: u32 = self.data;
        let b: u32 = other.data;
        assert(self@.codes[0] == other@.codes[0]);
        assert(self@.codes[1] == other@.codes[1]);
        assert(self@.codes[2] == other@.codes[2]);
        assert(self@.codes[3] == other@.codes[3]);
        assert(self@.codes[4] == other@.codes[4]);
        assert(self@.links[0] == other@.links[0]);
        assert(self@.links[1] == other@.links[1]);
        assert(self@.links[2] == other@.links[2]);
        assert(self@.links[3] == other@.links[3]);
        assert(a == b) by (bit_vector)
            requires
                a % 16 == b % 16,
                a / 0x10 % 16 == b / 0x10 % 16,
                a / 0x100 % 16 == b / 0x100 % 16,
                a / 0x1000 % 16 == b / 0x1000 % 16,
                a / 0x1_0000 % 16 == b / 0x1_0000 % 16,
                a / 0x10_0000 % 8 == b / 0x10_0000 % 8,
                a / 0x80_0000 % 8 == b / 0x80_0000 % 8,
                a / 0x400_0000 % 8 == b / 0x400_0000 % 8,
                a / 0x2000_0000 % 8 == b / 0x2000_0000 % 8,
        ;
    }
}

impl ChainFields {
    /// A record made from a code that fits in four bits gives that code
    /// back, and has no causes.
    pub proof fn lemma_single(code: ErrorCode)
        requires
            code < 16,
        ensures
            Self::single(code % 16).code() == code,
            Self::single(code % 16).chain_len() == 0,
            Self::single(code % 16).chain() == Seq::<(ErrorCode, u8)>::empty(),
            Self::single(code % 16).wf(),
            Self::single(code % 16).contiguous(),
    {
        assert(Self::single(code % 16).chain() =~= Seq::<(ErrorCode, u8)>::empty());
    }

    /// Pushing with a present link lengthens the chain by one cause, up to
    /// the capacity of four, and keeps the record well formed and
    /// contiguous.
    pub proof fn lemma_push_front_len(self, code: ErrorCode, link: u8)
        requires
            self.wf(),
            code < 16,
            0 < link < 8,
        ensures
            self.push_front(code, link).wf(),
            self.push_front(code, link).code() == code,
            self.push_front(code, link).chain_len() == if self.chain_len() < 4 {
                self.chain_len() + 1
            } else {
                4
            },
            self.contiguous() ==> self.push_front(code, link).contiguous(),
    {
        let pushed = self.push_front(code, link);
        assert(pushed.links[0] == link);
        assert(pushed.links[1] == self.links[0]);
        assert(pushed.links[2] == self.links[1]);
        assert(pushed.links[3] == self.links[2]);
        assert forall|i: int| 0 <= i < 5 implies #[trigger] pushed.codes[i] < 16 by {
            if i > 0 {
                assert(pushed.codes[i] == self.codes[i - 1]);
            }
        }
        assert forall|i: int| 0 <= i < 4 implies #[trigger] pushed.links[i] < 8 by {
            if i > 0 {
                assert(pushed.links[i] == self.links[i - 1]);
            }
        }
        if self.contiguous() {
            assert forall|i: int| pushed.chain_len() <= i < 4 implies #[trigger] pushed.links[i]
                == 0 && pushed.codes[i + 1] == 0 by {
                assert(pushed.links[i] == self.links[i - 1]);
                assert(pushed.codes[i + 1] == self.codes[i]);
            }
        }
    }

    /// After a push with a present link, the newest cause is the former
    /// current code with the pushed link index, and behind it stand the
    /// former causes in their order, without the fourth of them if there
    /// were four.
    pub proof fn lemma_push_front_chain(self, code: ErrorCode, link: u8)
        requires
            self.wf(),
            0 < link < 8,
        ensures
            self.push_front(code, link).chain() == seq![(self.code(), (link - 1) as u8)]
                + self.chain().take(if self.chain_len() < 4 {
                self.chain_len() as int
            } else {
                3
            }),
    {
        let pushed = self.push_front(code, link);
        let kept: int = if self.chain_len() < 4 {
            self.chain_len() as int
        } else {
            3
        };
        assert(pushed.links[0] == link);
        assert(pushed.links[1] == self.links[0]);
        assert(pushed.links[2] == self.links[1]);
        assert(pushed.links[3] == self.links[2]);
        assert(pushed.codes[1] == self.codes[0]);
        assert(pushed.codes[2] == self.codes[1]);
        assert(pushed.codes[3] == self.codes[2]);
        assert(pushed.codes[4] == self.codes[3]);
        assert(pushed.chain() =~= seq![(self.code(), (link - 1) as u8)] + self.chain().take(kept));
    }

    /// A full contiguous chain gives up its oldest cause to the next push:
    /// the pair handed back is the last cause, and it is no longer among
    /// the causes afterwards. A chain that is not full gives up nothing.
    pub proof fn lemma_push_front_evicts_oldest(self, code: ErrorCode, link: u8)
        requires
            self.wf(),
            self.contiguous(),
            0 < link < 8,
        ensures
            self.chain_len() == 4 ==> self.back() == Some(self.chain()[3]),
            self.chain_len() == 4 ==> self.push_front(code, link).chain() == seq![
                (self.code(), (link - 1) as u8),
                self.chain()[0],
                self.chain()[1],
                self.chain()[2],
            ],
            self.chain_len() < 4 ==> self.back().is_none(),
            self.chain_len() < 4 ==> self.push_front(code, link).chain() == seq![
                (self.code(), (link - 1) as u8),
            ] + self.chain(),
    {
        self.lemma_push_front_chain(code, link);
        if self.chain_len() == 4 {
            assert(self.chain().take(3)
                =~= seq![self.chain()[0], self.chain()[1], self.chain()[2]]);
            assert(seq![(self.code(), (link - 1) as u8)] + seq![
                self.chain()[0],
                self.chain()[1],
                self.chain()[2],
            ] =~= seq![
                (self.code(), (link - 1) as u8),
                self.chain()[0],
                self.chain()[1],
                self.chain()[2],
            ]);
        } else {
            assert(self.links[3] == 0);
            assert(self.chain().take(self.chain_len() as int) =~= self.chain());
        }
    }

    /// After any number of pushes with present links onto a record without
    /// causes, the chain holds as many causes as there were pushes, but
    /// never more than four.
    pub proof fn lemma_pushed_all_len(code: ErrorCode, steps: Seq<(ErrorCode, u8)>)
        requires
            code < 16,
            forall|i: int|
                0 <= i < steps.len() ==> (#[trigger] steps[i]).0 < 16 && 0 < steps[i].1 < 8,
        ensures
            pushed_all(Self::single(code), steps).wf(),
            pushed_all(Self::single(code), steps).contiguous(),
            pushed_all(Self::single(code), steps).chain_len() == if steps.len() < 4 {
                steps.len()
            } else {
                4
            },
        decreases steps.len(),
    {
        if steps.len() == 0 {
            Self::lemma_single(code);
        } else {
            let before = steps.drop_last();
            assert forall|i: int| 0 <= i < before.len() implies (#[trigger] before[i]).0 < 16 && 0
                < before[i].1 < 8 by {
                assert(before[i] == steps[i]);
            }
            Self::lemma_pushed_all_len(code, before);
            pushed_all(Self::single(code), before).lemma_push_front_len(
                steps.last().0,
                steps.last().1,
            );
        }
    }
}

} // verus!
