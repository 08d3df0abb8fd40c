//! Two values held together.

use vstd::prelude::*;

verus! {

/// Two values held together, as the key of a table of handlers is.
#[derive(Clone, Debug, PartialEq, Eq, Hash)]
pub struct Pair<T, E> {
    pub first: T,
    pub second: E,
}

impl<T, E> Pair<T, E> {
    /// The pair of `first` and `second`.
    pub fn new(first: T, second: E) -> (pair: Pair<T, E>)
        ensures
            pair.first == first,
            pair.second == second,
    {
        Pair { first, second }
    }
}

} // verus!
