//! The values that evaluation produces.

use vstd::prelude::*;

verus! {

/// The result of evaluating an expression.
#[derive(Clone, Copy, Debug, PartialEq, Eq, Structural)]
pub enum Val {
    /// A 32-bit signed integer.
    Number(i32),
}

} // verus!
