//! The text under which a variant of a category is rendered, made from
//! the variant's name, its documentation comment and its format string.

use crate::doc_comment::{
    details_text, doc_sections, parse_doc_comment, split, summary_text, texts,
    without_first_space,
};
use crate::str_placeholder::{
    find_span, first_placeholder_range, replace_all_placeholders, replaced,
};
use vstd::prelude::*;

verus! {

/// The character before a placeholder's name.
pub const FMT_PLACEHOLDER_DELIM_L: char = '{';

/// The character behind a placeholder's name.
pub const FMT_PLACEHOLDER_DELIM_R: char = '}';

/// The placeholder for the summary of the documentation comment.
pub open spec fn summary_name() -> Seq<char> {
    seq!['s', 'u', 'm', 'm', 'a', 'r', 'y']
}

/// The placeholder for the details of the documentation comment.
pub open spec fn details_name() -> Seq<char> {
    seq!['d', 'e', 't', 'a', 'i', 'l', 's']
}

/// The placeholder for the name of the variant.
pub open spec fn variant_name() -> Seq<char> {
    seq!['v', 'a', 'r', 'i', 'a', 'n', 't']
}

/// The placeholder for the name of the category.
pub open spec fn category_name() -> Seq<char> {
    seq!['c', 'a', 't', 'e', 'g', 'o', 'r', 'y']
}

/// The placeholder for the summary of the documentation comment.
pub fn placeholder_summary() -> (name: &'static str)
    ensures
        name@ == summary_name(),
{
    let name: &'static str = "summary";
    proof {
        reveal_strlit("summary");
        assert(name@ =~= summary_name());
    }
    name
}

/// The placeholder for the details of the documentation comment.
pub fn placeholder_details() -> (name: &'static str)
    ensures
        name@ == details_name(),
{
    let name: &'static str = "details";
    proof {
        reveal_strlit("details");
        assert(name@ =~= details_name());
    }
    name
}

/// The placeholder for the name of the variant.
pub fn placeholder_variant() -> (name: &'static str)
    ensures
        name@ == variant_name(),
{
    let name: &'static str = "variant";
    proof {
        reveal_strlit("variant");
        assert(name@ =~= variant_name());
    }
    name
}

/// The placeholder for the name of the category.
pub fn placeholder_category() -> (name: &'static str)
    ensures
        name@ == category_name(),
{
    let name: &'static str = "category";
    proof {
        reveal_strlit("category");
        assert(name@ =~= category_name());
    }
    name
}

/// Whether `text` holds the placeholder `name` between braces.
pub open spec fn has_placeholder(text: Seq<char>, name: Seq<char>) -> bool {
    find_span(text, name, '{', '}', 0, 0).is_some()
}

/// `text` with every placeholder `name` between braces replaced by
/// `with`.
pub open spec fn filled(text: Seq<char>, name: Seq<char>, with: Seq<char>) -> Seq<char> {
    replaced(text, name, with, '{', '}', 0)
}

/// The format string `text` with its placeholders filled in: the summary
/// and the details of the documentation comment if `doc` says so, then the
/// name of the category, then the name of the variant.
pub open spec fn expanded(
    text: Seq<char>,
    doc: bool,
    summary: Seq<char>,
    details: Seq<char>,
    category: Seq<char>,
    variant: Seq<char>,
) -> Seq<char> {
    let with_doc = if doc {
        filled(filled(text, summary_name(), summary), details_name(), details)
    } else {
        text
    };
    filled(filled(with_doc, category_name(), category), variant_name(), variant)
}

/// The lines of the documentation comments `comments`, one comment after
/// the other, each line without the white space character that it starts
/// with, if it starts with one.
pub open spec fn comment_lines(comments: Seq<Seq<char>>) -> Seq<Seq<char>>
    decreases comments.len(),
{
    if comments.len() == 0 {
        Seq::empty()
    } else {
        comment_lines(comments.drop_last()) + Seq::new(
            split(comments.last(), '\n').len(),
            |i: int| without_first_space(split(comments.last(), '\n')[i]),
        )
    }
}

/// The format string that a variant's `error` attribute gives.
pub struct ErrorVariantAttr {
    /// The format string.
    pub format_str: String,
    /// Whether the format string holds a placeholder for the summary or
    /// for the details of the documentation comment.
    pub doc_comment_placeholder: bool,
}

impl ErrorVariantAttr {
    /// The attribute with the format string `format_str`.
    pub fn parse(format_str: String) -> (attr: ErrorVariantAttr)
        ensures
            attr.format_str@ == format_str@,
            attr.doc_comment_placeholder == (has_placeholder(format_str@, summary_name())
                || has_placeholder(format_str@, details_name())),
    {
        let doc_comment_placeholder: bool = first_placeholder_range(
            format_str.as_str(),
            placeholder_summary(),
            FMT_PLACEHOLDER_DELIM_L,
            FMT_PLACEHOLDER_DELIM_R,
        ).is_some() || first_placeholder_range(
            format_str.as_str(),
            placeholder_details(),
            FMT_PLACEHOLDER_DELIM_L,
            FMT_PLACEHOLDER_DELIM_R,
        ).is_some();
        ErrorVariantAttr { format_str, doc_comment_placeholder }
    }
}

/// A variant of a category, with what its rendering is made from.
pub struct ErrorVariant {
    /// The name of the variant.
    pub variant_name: String,
    /// The format string with its placeholders filled in, once
    /// [`ErrorVariant::expand`] has made it.
    pub format_str: Option<String>,
    /// The summary of the documentation comment.
    pub doc_summary: String,
    /// The details of the documentation comment.
    pub doc_details: String,
    /// The `error` attribute of the variant, if it has one.
    pub error_attr: Option<ErrorVariantAttr>,
}

impl ErrorVariant {
    /// Whether the documentation comment of a variant with the attribute
    /// `error_attr` is read: it is unless the attribute's format string has
    /// no placeholder for it.
    pub open spec fn reads_doc(error_attr: Option<ErrorVariantAttr>) -> bool {
        match error_attr {
            Some(attr) => attr.doc_comment_placeholder,
            None => true,
        }
    }

    /// The variant named `variant_name` with the documentation comments
    /// `doc_comments` and the attribute `error_attr`.
    ///
    /// The summary and the details are taken from the documentation
    /// comments if they are read, and are empty if not.
    pub fn parse(
        variant_name: String,
        doc_comments: &Vec<String>,
        error_attr: Option<ErrorVariantAttr>,
    ) -> (variant: ErrorVariant)
        ensures
            variant.variant_name@ == variant_name@,
            variant.format_str.is_none(),
            variant.error_attr == error_attr,
            Self::reads_doc(error_attr) ==> variant.doc_summary@ == summary_text(
                comment_lines(texts(doc_comments@)),
            ) && variant.doc_details@ == details_text(comment_lines(texts(doc_comments@))),
            !Self::reads_doc(error_attr) ==> variant.doc_summary@ == Seq::<char>::empty()
                && variant.doc_details@ == Seq::<char>::empty(),
    {
        let parse_doc_comments: bool = match &error_attr {
            Some(attr) => attr.doc_comment_placeholder,
            None => true,
        };
        let (summary, details) = if parse_doc_comments {
            let mut lines: Vec<String> = Vec::new();
            let mut i: usize = 0;
            assert(texts(doc_comments@).take(0) =~= Seq::<Seq<char>>::empty());
            assert(texts(lines@) =~= Seq::<Seq<char>>::empty());
            while i < doc_comments.len()
                invariant
                    i <= doc_comments@.len(),
                    texts(lines@) == comment_lines(texts(doc_comments@).take(i as int)),
                decreases doc_comments@.len() - i,
            {
                let ghost before = texts(lines@);
                let ghost comments = texts(doc_comments@);
                let mut more: Vec<String> = parse_doc_comment(doc_comments[i].as_str());
                let ghost added = texts(more@);
                assert(comments.take(i as int + 1).drop_last() =~= comments.take(i as int));
                assert(comments.take(i as int + 1).last() == doc_comments@[i as int]@);
                lines.append(&mut more);
                assert(texts(lines@) =~= before + added);
                assert(added =~= Seq::new(
                    split(doc_comments@[i as int]@, '\n').len(),
                    |k: int| without_first_space(split(doc_comments@[i as int]@, '\n')[k]),
                ));
                i += 1;
            }
            assert(texts(doc_comments@).take(doc_comments@.len() as int) =~= texts(
                doc_comments@,
            ));
            doc_sections(&lines)
        } else {
            (String::new(), String::new())
        };
        ErrorVariant {
            error_attr,
            format_str: None,
            doc_summary: summary,
            doc_details: details,
            variant_name,
        }
    }

    /// The format string that this variant is rendered with, before its
    /// placeholders are filled in: that of the `error` attribute if there
    /// is one, else the summary if it is not empty. The flag says whether
    /// the placeholders for the documentation comment are filled in.
    pub open spec fn template(self) -> Option<(Seq<char>, bool)> {
        match self.error_attr {
            Some(attr) => Some((attr.format_str@, attr.doc_comment_placeholder)),
            None => if self.doc_summary@.len() > 0 {
                Some((self.doc_summary@, true))
            } else {
                None
            },
        }
    }

    /// The format string of this variant in the category named
    /// `category_name`, with its placeholders filled in, if the variant
    /// has a format string.
    pub open spec fn expanded_format(self, category_name: Seq<char>) -> Option<Seq<char>> {
        match self.template() {
            Some((text, doc)) => Some(
                expanded(
                    text,
                    doc,
                    self.doc_summary@,
                    self.doc_details@,
                    category_name,
                    self.variant_name@,
                ),
            ),
            None => None,
        }
    }

    /// Makes the format string of this variant in the category named
    /// `category_name`. A variant without an `error` attribute and without
    /// a summary keeps none.
    pub fn expand(&mut self, category_name: &str)
        ensures
            final(self).variant_name == old(self).variant_name,
            final(self).doc_summary == old(self).doc_summary,
            final(self).doc_details == old(self).doc_details,
            final(self).error_attr == old(self).error_attr,
            match old(self).expanded_format(category_name@) {
                Some(text) => final(self).format_str.is_some() && final(self).format_str.unwrap()@
                    == text,
                None => final(self).format_str == old(self).format_str,
            },
    {
        let template: Option<(String, bool)> = match &self.error_attr {
            Some(attr) => Some((attr.format_str.clone(), attr.doc_comment_placeholder)),
            None => if !self.doc_summary.as_str().is_empty() {
                Some((self.doc_summary.clone(), true))
            } else {
                None
            },
        };
        match template {
            Some((text, doc_comments_placeholder)) => {
                let mut format_str: String = text;
                if doc_comments_placeholder {
                    replace_all_placeholders(
                        &mut format_str,
                        placeholder_summary(),
                        self.doc_summary.as_str(),
                        FMT_PLACEHOLDER_DELIM_L,
                        FMT_PLACEHOLDER_DELIM_R,
                    );
                    replace_all_placeholders(
                        &mut format_str,
                        placeholder_details(),
                        self.doc_details.as_str(),
                        FMT_PLACEHOLDER_DELIM_L,
                        FMT_PLACEHOLDER_DELIM_R,
                    );
                }
                replace_all_placeholders(
                    &mut format_str,
                    placeholder_category(),
                    category_name,
                    FMT_PLACEHOLDER_DELIM_L,
                    FMT_PLACEHOLDER_DELIM_R,
                );
                replace_all_placeholders(
                    &mut format_str,
                    placeholder_variant(),
                    self.variant_name.as_str(),
                    FMT_PLACEHOLDER_DELIM_L,
                    FMT_PLACEHOLDER_DELIM_R,
                );
                self.format_str = Some(format_str);
            },
            None => {},
        }
    }

    /// The text that this variant is rendered with: its format string if
    /// it has one, else its name.
    pub fn text(&self) -> (text: String)
        ensures
            text@ == match self.format_str {
                Some(format_str) => format_str@,
                None => self.variant_name@,
            },
    {
        match &self.format_str {
            Some(format_str) => format_str.clone(),
            None => self.variant_name.clone(),
        }
    }
}

} // verus!
