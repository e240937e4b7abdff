//! What code that makes and chains errors needs in scope.

pub use crate::{
    CategoryIdentity, ChainError, DynError, Error, ErrorCategory, ErrorCategoryHandle,
    ErrorCodeFormatter, ResultChainError,
};
