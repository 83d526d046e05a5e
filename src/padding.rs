use vstd::prelude::*;

verus! {

broadcast use vstd::function::group_function_axioms;

/// A source of values for the slots that an iterator leaves empty.
pub trait Padding<T>: Sized {
    /// Whether `next_pad` may be called.
    spec fn can_pad(&self) -> bool;

    /// Whether `x` is a value that `next_pad` may return.
    spec fn pads_with(&self, x: T) -> bool;

    /// Produces one padding value.
    fn next_pad(&mut self) -> (r: T)
        requires
            (*old(self)).can_pad(),
        ensures
            *final(self) == *old(self),
            (*old(self)).pads_with(r),
    ;
}

/// A closure pads with what it returns.
impl<T, F: FnMut() -> T> Padding<T> for F {
    open spec fn can_pad(&self) -> bool {
        call_requires(*self, ())
    }

    open spec fn pads_with(&self, x: T) -> bool {
        call_ensures(*self, (), x)
    }

    fn next_pad(&mut self) -> (r: T) {
        self()
    }
}

/// Pads with the item type's default value.
#[derive(Clone, Copy, Debug, PartialEq, Eq)]
pub struct DefaultPad;

impl<T: Default> Padding<T> for DefaultPad {
    open spec fn can_pad(&self) -> bool {
        true
    }

    open spec fn pads_with(&self, x: T) -> bool {
        call_ensures(T::default, (), x)
    }

    fn next_pad(&mut self) -> (r: T) {
        T::default()
    }
}

} // verus!
