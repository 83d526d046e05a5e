use vstd::prelude::*;

verus! {

/// Why an iterator could not be turned into an array of the requested size.
#[derive(Clone, Debug, PartialEq)]
pub enum ToArrayError {
    /// The iterator ended after the first field's number of items; the
    /// second field is the requested size.
    TooShort(usize, usize),
    /// The iterator held more items than the requested size, which is the field.
    TooLong(usize),
}

/// The result of filling an array from an iterator with padding.
#[derive(Copy, Clone, Debug, PartialEq, Eq)]
pub enum MaybePartial<A> {
    /// Every slot came from the iterator.
    Full(A),
    /// The iterator ended after the given number of items, which fill the
    /// first slots; the padding function filled the rest.
    Partial(A, usize),
    /// The iterator held no item at all.
    Empty,
}

} // verus!
