//! Propositional-logic formulas: parsing, evaluation against a context of
//! named formulas, truth tables and equivalence checks by exhaustive
//! enumeration, and a small line-oriented command layer.

use vstd::prelude::*;

pub mod aussagen;
pub mod script;

verus! {

/// Sum of two numbers; kept as the crate's smallest example of a contract.
pub fn add(left: usize, right: usize) -> (r: usize)
    requires
        left + right <= usize::MAX,
    ensures
        r == left + right,
{
    left + right
}

} // verus!

