//! The arguments of the `error_category` attribute: a name and a list of
//! links.

use crate::error_category::MAX_LINKS;
use vstd::prelude::*;

verus! {

/// The largest code a variant can have.
pub const MAX_ERROR_CODE: usize = 15;

/// What matters of one argument of the attribute.
#[derive(Clone, Copy, PartialEq, Eq, Structural, Debug)]
pub enum NestedArg {
    /// An argument of the form `path = literal`: whether the path is
    /// `name`, and whether the literal is a string.
    NameValue { is_name: bool, is_str: bool },
    /// An argument of the form `path(...)`: whether the path is `links`.
    List { is_links: bool },
    /// Anything else.
    Other,
}

/// What an argument counts as.
#[derive(Clone, Copy, PartialEq, Eq, Structural, Debug)]
pub enum ArgClass {
    /// `name = "..."`.
    Name,
    /// `links(...)`.
    Links,
    /// Another `path = literal`.
    InvalidNameValue,
    /// Another `path(...)`.
    InvalidList,
    /// Neither form.
    Invalid,
}

/// What is wrong with the arguments of the attribute. Each holds the
/// position of the argument it is about.
#[derive(Clone, Copy, PartialEq, Eq, Structural, Debug)]
pub enum ErrorCategoryArgError {
    /// The argument is neither `name = "..."` nor `links(...)`.
    InvalidArg(usize),
    /// The argument is a second `name = "..."`.
    TooManyNameArgs(usize),
    /// The argument is a second `links(...)`.
    TooManyLinksArgs(usize),
}

/// What `arg` counts as.
pub open spec fn class_of(arg: NestedArg) -> ArgClass {
    match arg {
        NestedArg::NameValue { is_name, is_str } => if is_name && is_str {
            ArgClass::Name
        } else {
            ArgClass::InvalidNameValue
        },
        NestedArg::List { is_links } => if is_links {
            ArgClass::Links
        } else {
            ArgClass::InvalidList
        },
        NestedArg::Other => ArgClass::Invalid,
    }
}

/// The position in `args`, at or behind `from`, of the argument of class
/// `class` that has `skip` arguments of that class between `from` and
/// itself.
pub open spec fn nth_of_class(
    args: Seq<NestedArg>,
    class: ArgClass,
    skip: nat,
    from: int,
) -> Option<int>
    decreases args.len() - from,
{
    if from < 0 || from >= args.len() {
        None
    } else if class_of(args[from]) == class {
        if skip == 0 {
            Some(from)
        } else {
            nth_of_class(args, class, (skip - 1) as nat, from + 1)
        }
    } else {
        nth_of_class(args, class, skip, from + 1)
    }
}

/// The errors in `args`, in the order in which they are reported: the
/// first argument of neither form, the first `path = literal` that is no
/// name, a second name, the first `path(...)` that is no list of links,
/// and a second list of links.
pub open spec fn arg_errors(args: Seq<NestedArg>) -> Seq<ErrorCategoryArgError> {
    let invalid = match nth_of_class(args, ArgClass::Invalid, 0, 0) {
        Some(i) => seq![ErrorCategoryArgError::InvalidArg(i as usize)],
        None => Seq::empty(),
    };
    let invalid_name = match nth_of_class(args, ArgClass::InvalidNameValue, 0, 0) {
        Some(i) => seq![ErrorCategoryArgError::InvalidArg(i as usize)],
        None => Seq::empty(),
    };
    let second_name = match nth_of_class(args, ArgClass::Name, 1, 0) {
        Some(i) => seq![ErrorCategoryArgError::TooManyNameArgs(i as usize)],
        None => Seq::empty(),
    };
    let invalid_list = match nth_of_class(args, ArgClass::InvalidList, 0, 0) {
        Some(i) => seq![ErrorCategoryArgError::InvalidArg(i as usize)],
        None => Seq::empty(),
    };
    let second_links = match nth_of_class(args, ArgClass::Links, 1, 0) {
        Some(i) => seq![ErrorCategoryArgError::TooManyLinksArgs(i as usize)],
        None => Seq::empty(),
    };
    invalid + invalid_name + second_name + invalid_list + second_links
}

/// What `arg` counts as.
pub fn classify(arg: NestedArg) -> (class: ArgClass)
    ensures
        class == class_of(arg),
{
    match arg {
        NestedArg::NameValue { is_name, is_str } => {
            if is_name && is_str {
                ArgClass::Name
            } else {
                ArgClass::InvalidNameValue
            }
        },
        NestedArg::List { is_links } => {
            if is_links {
                ArgClass::Links
            } else {
                ArgClass::InvalidList
            }
        },
        NestedArg::Other => ArgClass::Invalid,
    }
}

/// The position of the argument of class `class` that has `skip`
/// arguments of that class before it.
pub fn find_class(args: &[NestedArg], class: ArgClass, skip: usize) -> (found: Option<usize>)
    ensures
        match nth_of_class(args@, class, skip as nat, 0) {
            Some(i) => found.is_some() && found.unwrap() == i && i < args@.len(),
            None => found.is_none(),
        },
{
    let mut left: usize = skip;
    let mut at: usize = 0;
    while at < args.len()
        invariant
            at <= args@.len(),
            nth_of_class(args@, class, skip as nat, 0) == nth_of_class(
                args@,
                class,
                left as nat,
                at as int,
            ),
        decreases args@.len() - at,
    {
        if classify(args[at]) == class {
            if left == 0 {
                return Some(at);
            }
            left -= 1;
        }
        at += 1;
    }
    None
}

/// Checks the arguments of the attribute.
///
/// Returns the position of the name, the position of the list of links,
/// each the first of its kind if there is one, and the errors found.
pub fn validate_attr_args(nested: &[NestedArg]) -> (res: (
    Option<usize>,
    Option<usize>,
    Vec<ErrorCategoryArgError>,
))
    ensures
        match nth_of_class(nested@, ArgClass::Name, 0, 0) {
            Some(i) => res.0.is_some() && res.0.unwrap() == i,
            None => res.0.is_none(),
        },
        match nth_of_class(nested@, ArgClass::Links, 0, 0) {
            Some(i) => res.1.is_some() && res.1.unwrap() == i,
            None => res.1.is_none(),
        },
        res.2@ == arg_errors(nested@),
{
    let mut errors: Vec<ErrorCategoryArgError> = Vec::new();
    let ghost invalid = match nth_of_class(nested@, ArgClass::Invalid, 0, 0) {
        Some(i) => seq![ErrorCategoryArgError::InvalidArg(i as usize)],
        None => Seq::empty(),
    };
    let ghost invalid_name = match nth_of_class(nested@, ArgClass::InvalidNameValue, 0, 0) {
        Some(i) => seq![ErrorCategoryArgError::InvalidArg(i as usize)],
        None => Seq::empty(),
    };
    let ghost second_name = match nth_of_class(nested@, ArgClass::Name, 1, 0) {
        Some(i) => seq![ErrorCategoryArgError::TooManyNameArgs(i as usize)],
        None => Seq::empty(),
    };
    let ghost invalid_list = match nth_of_class(nested@, ArgClass::InvalidList, 0, 0) {
        Some(i) => seq![ErrorCategoryArgError::InvalidArg(i as usize)],
        None => Seq::empty(),
    };
    let ghost second_links = match nth_of_class(nested@, ArgClass::Links, 1, 0) {
        Some(i) => seq![ErrorCategoryArgError::TooManyLinksArgs(i as usize)],
        None => Seq::empty(),
    };
    match find_class(nested, ArgClass::Invalid, 0) {
        Some(i) => errors.push(ErrorCategoryArgError::InvalidArg(i)),
        None => {},
    }
    assert(errors@ =~= invalid);
    match find_class(nested, ArgClass::InvalidNameValue, 0) {
        Some(i) => errors.push(ErrorCategoryArgError::InvalidArg(i)),
        None => {},
    }
    assert(errors@ =~= invalid + invalid_name);
    match find_class(nested, ArgClass::Name, 1) {
        Some(i) => errors.push(ErrorCategoryArgError::TooManyNameArgs(i)),
        None => {},
    }
    assert(errors@ =~= invalid + invalid_name + second_name);
    match find_class(nested, ArgClass::InvalidList, 0) {
        Some(i) => errors.push(ErrorCategoryArgError::InvalidArg(i)),
        None => {},
    }
    assert(errors@ =~= invalid + invalid_name + second_name + invalid_list);
    match find_class(nested, ArgClass::Links, 1) {
        Some(i) => errors.push(ErrorCategoryArgError::TooManyLinksArgs(i)),
        None => {},
    }
    assert(errors@ =~= invalid + invalid_name + second_name + invalid_list + second_links);
    let name_arg: Option<usize> = find_class(nested, ArgClass::Name, 0);
    let links_arg: Option<usize> = find_class(nested, ArgClass::Links, 0);
    (name_arg, links_arg, errors)
}

/// The position in `is_path`, at or behind `from`, of the entry equal to
/// `wanted` that has `skip` such entries between `from` and itself.
pub open spec fn nth_entry(is_path: Seq<bool>, wanted: bool, skip: nat, from: int) -> Option<int>
    decreases is_path.len() - from,
{
    if from < 0 || from >= is_path.len() {
        None
    } else if is_path[from] == wanted {
        if skip == 0 {
            Some(from)
        } else {
            nth_entry(is_path, wanted, (skip - 1) as nat, from + 1)
        }
    } else {
        nth_entry(is_path, wanted, skip, from + 1)
    }
}

/// The position of the entry equal to `wanted` that has `skip` such
/// entries before it.
pub fn find_entry(is_path: &[bool], wanted: bool, skip: usize) -> (found: Option<usize>)
    ensures
        match nth_entry(is_path@, wanted, skip as nat, 0) {
            Some(i) => found.is_some() && found.unwrap() == i && i < is_path@.len(),
            None => found.is_none(),
        },
{
    let mut left: usize = skip;
    let mut at: usize = 0;
    while at < is_path.len()
        invariant
            at <= is_path@.len(),
            nth_entry(is_path@, wanted, skip as nat, 0) == nth_entry(
                is_path@,
                wanted,
                left as nat,
                at as int,
            ),
        decreases is_path@.len() - at,
    {
        if is_path[at] == wanted {
            if left == 0 {
                return Some(at);
            }
            left -= 1;
        }
        at += 1;
    }
    None
}

/// Checks the entries of a list of links, of which `is_path` says for
/// each whether it is the path of a type.
///
/// Returns the position of the first entry that is no path, and the
/// position of the first path beyond the six that a category can link to,
/// each if there is one.
pub fn validate_links(is_path: &[bool]) -> (res: (Option<usize>, Option<usize>))
    ensures
        match nth_entry(is_path@, false, 0, 0) {
            Some(i) => res.0.is_some() && res.0.unwrap() == i,
            None => res.0.is_none(),
        },
        match nth_entry(is_path@, true, MAX_LINKS as nat, 0) {
            Some(i) => res.1.is_some() && res.1.unwrap() == i,
            None => res.1.is_none(),
        },
{
    (find_entry(is_path, false, 0), find_entry(is_path, true, MAX_LINKS))
}

/// Whether the variants of an enum can be converted to and from codes by a
/// cast: the enum has no variants, or its first `repr` attribute names
/// `u8`. `first_repr` says of each entry of that attribute whether it is
/// `u8`, and is `None` if the enum has no `repr` attribute.
pub fn is_repr_u8_compatible(has_variants: bool, first_repr: Option<&[bool]>) -> (compatible: bool)
    ensures
        compatible == (!has_variants || match first_repr {
            Some(entries) => nth_entry(entries@, true, 0, 0).is_some(),
            None => false,
        }),
{
    if !has_variants {
        return true;
    }
    match first_repr {
        Some(entries) => find_entry(entries, true, 0).is_some(),
        None => false,
    }
}

} // verus!
