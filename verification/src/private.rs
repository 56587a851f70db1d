//! Traits that close the set of input kinds.

use vstd::prelude::*;

verus! {

/// Marks the input kinds a rewriter accepts; nothing outside this crate can implement it.
pub trait Sealed {

}

/// Gives a kind of text the type of the position kept while reading it.
pub trait WithInfo {
    type Info: Default;
}

impl WithInfo for str {
    type Info = usize;
}

} // verus!
