//! Helpers for code that declares error categories.

use vstd::prelude::*;

verus! {

/// States that `cond` holds where a category is declared. `msg` says what
/// is wrong when it does not.
pub fn const_assert(cond: bool, msg: &'static str)
    requires
        cond,
{
}

} // verus!
