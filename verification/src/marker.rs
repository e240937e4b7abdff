use vstd::prelude::*;

pub use crate::error_category::Unused;

verus! {

/// Tells the implementations of chaining apart: the cause's category is
/// link 0 of the new category.
pub struct L0;

/// Tells the implementations of chaining apart: the cause's category is
/// link 1 of the new category.
pub struct L1;

/// Tells the implementations of chaining apart: the cause's category is
/// link 2 of the new category.
pub struct L2;

/// Tells the implementations of chaining apart: the cause's category is
/// link 3 of the new category.
pub struct L3;

/// Tells the implementations of chaining apart: the cause's category is
/// link 4 of the new category.
pub struct L4;

/// Tells the implementations of chaining apart: the cause's category is
/// link 5 of the new category.
pub struct L5;

/// Tells the implementations of chaining apart: what is chained is an
/// error with its chain.
#[allow(non_camel_case_types)]
pub struct Error_t;

/// Tells the implementations of chaining apart: what is chained is a bare
/// code of a category.
#[allow(non_camel_case_types)]
pub struct Concrete_t;

} // verus!
