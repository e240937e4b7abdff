//! Error codes with a bounded chain of causes, packed into one 32-bit word.
//!
//! An error is a code of four bits that belongs to a category, a type that
//! implements [`ErrorCategory`]. Chaining an error with a code of another
//! category makes the new code the current one and keeps the old one as its
//! cause, up to four causes deep. A category says in its link table which
//! categories its errors may be caused by, and an error can only be chained
//! with a code of a category that links to its own.
//!
//! [`ErrorData`] is the packed record: five codes and, for each cause, the
//! slot of the link table that leads to the cause's category. [`Error`] is a
//! record whose current category is a type parameter; chaining it is
//! checked when the program is compiled. [`DynError`] is a record with the
//! [`ErrorCodeFormatter`] of its current category; chaining it is checked
//! when it happens, with [`DynError::try_chain`].
//!
//! A record holds no category but only slots of link tables, so a walk
//! over an error needs the formatters of the categories of the program to
//! find the category of each cause. The functions that walk an error take
//! them as a slice, in which a category is found by its
//! [`CategoryIdentity::ID`].
//!
//! The modules [`str_placeholder`], [`doc_comment`], [`error_variant`] and
//! [`category_attr`] hold what a derive of [`ErrorCategory`] decides: the
//! text of each variant and the meaning of the attributes.

pub mod category_attr;
pub mod doc_comment;
pub mod dyn_error;
pub mod error;
pub mod error_category;
pub mod error_data;
pub mod error_variant;
pub mod marker;
pub mod prelude;
pub mod sink;
pub mod str_placeholder;
pub mod utils;

pub use dyn_error::DynError;
pub use error::{ChainError, Error, ErrorIter, ResultChainError};
pub use error_category::{
    format_chained, CategoryId, CategoryIdentity, ErrorCategory, ErrorCategoryHandle,
    ErrorCodeFormatter, ErrorCodeFormatterVal, MAX_LINKS,
};
pub use error_data::{ChainFields, ErrorData, ErrorDataChainIter, ERROR_CHAIN_LEN};
pub use sink::{FmtError, TextSink};

use vstd::prelude::*;

verus! {

/// An error code belonging to a category. Only the low four bits are kept
/// when a code is stored in an [`ErrorData`].
pub type ErrorCode = u8;

} // verus!
