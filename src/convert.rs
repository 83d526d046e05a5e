use crate::buffer::{fill_prefix, vec_into_array};
use crate::error::{MaybePartial, ToArrayError};
use crate::padding::Padding;
use vstd::prelude::*;
use vstd::std_specs::iter::IteratorSpec;

verus! {

broadcast use vstd::function::group_function_axioms;

/// Conversions of an iterator into an array of its first `N` items.
///
/// The contracts speak of the items that the iterator has still to produce
/// (`remaining`), for iterators that keep the laws of vstd's iterator model.
pub trait ToArray<T>: Iterator<Item = T> + Sized {
    /// Takes the first `N` items into an array, leaving the rest in the
    /// iterator. If it ends before `N` items, the items taken are dropped and
    /// `TooShort` tells how many there were.
    fn take_array<const N: usize>(&mut self) -> (r: Result<[T; N], ToArrayError>)
        ensures
            (*old(self)).obeys_prophetic_iter_laws() ==> {
                let s = (*old(self)).remaining();
                &&& (*final(self)).obeys_prophetic_iter_laws()
                &&& if s.len() >= N {
                    &&& r matches Ok(a) && a@ == s.take(N as int)
                    &&& (*final(self)).remaining() == s.skip(N as int)
                } else {
                    &&& r matches Err(ToArrayError::TooShort(k, n)) && k == s.len() && n == N
                    &&& (*final(self)).remaining().len() == 0
                }
            },
    ;

    /// Collects the whole iterator into an array of exactly `N` items:
    /// `TooShort` if it holds fewer, `TooLong(N)` if it holds more.
    fn to_array<const N: usize>(self) -> (r: Result<[T; N], ToArrayError>)
        ensures
            self.obeys_prophetic_iter_laws() ==> {
                let s = self.remaining();
                if s.len() == N {
                    r matches Ok(a) && a@ == s
                } else if s.len() < N {
                    r matches Err(ToArrayError::TooShort(k, n)) && k == s.len() && n == N
                } else {
                    r matches Err(ToArrayError::TooLong(n)) && n == N
                }
            },
    ;

    /// Takes up to `N` items into an array. If the iterator holds no item,
    /// returns `Empty` without calling `padding`; if it ends after `k` items
    /// with `0 < k < N`, fills the other slots by calling `padding` once each,
    /// in order, and returns `Partial(array, k)`; otherwise returns
    /// `Full(array)` without calling `padding`.
    fn take_array_partial<F: FnMut() -> T, const N: usize>(&mut self, padding: F) -> (r:
        MaybePartial<[T; N]>)
        requires
            call_requires(padding, ()),
        ensures
            (*old(self)).obeys_prophetic_iter_laws() ==> {
                let s = (*old(self)).remaining();
                &&& (*final(self)).obeys_prophetic_iter_laws()
                &&& if s.len() >= N {
                    &&& r matches MaybePartial::Full(a) && a@ == s.take(N as int)
                    &&& (*final(self)).remaining() == s.skip(N as int)
                } else if s.len() == 0 {
                    &&& r is Empty
                    &&& (*final(self)).remaining().len() == 0
                } else {
                    &&& r matches MaybePartial::Partial(a, k) && k == s.len() && a@.take(k as int)
                        == s && forall|j: int|
                        k <= j < N ==> call_ensures(padding, (), #[trigger] a@[j])
                    &&& (*final(self)).remaining().len() == 0
                }
            },
    ;
}

impl<I: Iterator> ToArray<I::Item> for I {
    fn take_array<const N: usize>(&mut self) -> (r: Result<[I::Item; N], ToArrayError>) {
        let buf = fill_prefix(self, N);
        if buf.len() < N {
            Err(ToArrayError::TooShort(buf.len(), N))
        } else {
            Ok(vec_into_array(buf))
        }
    }

    fn to_array<const N: usize>(self) -> (r: Result<[I::Item; N], ToArrayError>) {
        let mut it = self;
        let arr = match it.take_array::<N>() {
            Ok(a) => a,
            Err(e) => {
                return Err(e);
            },
        };
        match it.next() {
            Some(_) => Err(ToArrayError::TooLong(N)),
            None => Ok(arr),
        }
    }

    fn take_array_partial<F: FnMut() -> I::Item, const N: usize>(&mut self, padding: F) -> (r:
        MaybePartial<[I::Item; N]>) {
        let mut padding = padding;
        take_partial(self, &mut padding)
    }
}

/// Takes up to `N` items of `it` into an array, completing a short but
/// non-empty prefix with values from `pad`; see `ToArray::take_array_partial`.
pub(crate) fn take_partial<I: Iterator, P: Padding<I::Item>, const N: usize>(
    it: &mut I,
    pad: &mut P,
) -> (r: MaybePartial<[I::Item; N]>)
    requires
        (*old(pad)).can_pad(),
    ensures
        *final(pad) == *old(pad),
        (*old(it)).obeys_prophetic_iter_laws() ==> {
            let s = (*old(it)).remaining();
            &&& (*final(it)).obeys_prophetic_iter_laws()
            &&& ((*final(it)).decrease() is Some <==> (*old(it)).decrease() is Some)
            &&& if s.len() >= N {
                &&& r matches MaybePartial::Full(a) && a@ == s.take(N as int)
                &&& (*final(it)).remaining() == s.skip(N as int)
                &&& (N > 0 && (*final(it)).decrease() is Some ==> (*final(it)).decrease()->0 < (*old(
                    it)).decrease()->0)
            } else if s.len() == 0 {
                &&& r is Empty
                &&& (*final(it)).remaining().len() == 0
            } else {
                &&& r matches MaybePartial::Partial(a, k) && k == s.len() && a@.take(k as int)
                    == s && forall|j: int| k <= j < N ==> (*old(pad)).pads_with(#[trigger] a@[j])
                &&& (*final(it)).remaining().len() == 0
            }
        },
{
    let mut buf = fill_prefix(it, N);
    let k = buf.len();
    if k == N {
        return MaybePartial::Full(vec_into_array(buf));
    }
    if k == 0 {
        return MaybePartial::Empty;
    }
    let ghost prefix = buf@;
    while buf.len() < N
        invariant
            k <= buf@.len() <= N,
            buf@.take(k as int) == prefix,
            *pad == *old(pad),
            (*pad).can_pad(),
            forall|j: int| k <= j < buf@.len() ==> (*old(pad)).pads_with(#[trigger] buf@[j]),
        decreases N - buf@.len(),
    {
        let x = P::next_pad(pad);
        proof {
            assert(buf@.push(x).take(k as int) =~= buf@.take(k as int));
        }
        buf.push(x);
    }
    MaybePartial::Partial(vec_into_array(buf), k)
}

/// Conversions that fill the slots past the end of the iterator with the
/// item type's default value.
pub trait ToArrayDefault<T: Default>: Iterator<Item = T> + Sized {
    /// Takes up to `N` items into an array; the slots that the iterator
    /// cannot fill get `T::default()`.
    fn take_array_default<const N: usize>(&mut self) -> (r: [T; N])
        ensures
            (*old(self)).obeys_prophetic_iter_laws() ==> {
                let s = (*old(self)).remaining();
                let k = if s.len() < N { s.len() as int } else { N as int };
                &&& (*final(self)).obeys_prophetic_iter_laws()
                &&& r@.take(k) == s.take(k)
                &&& forall|j: int| k <= j < N ==> call_ensures(T::default, (), #[trigger] r@[j])
                &&& (*final(self)).remaining() == s.skip(k)
            },
    ;

    /// Collects the whole iterator into an array of `N` items, padded with
    /// `T::default()`; `TooLong(N)` if it holds more than `N` items.
    fn to_array_default<const N: usize>(self) -> (r: Result<[T; N], ToArrayError>)
        ensures
            self.obeys_prophetic_iter_laws() ==> {
                let s = self.remaining();
                if s.len() <= N {
                    r matches Ok(a) && a@.take(s.len() as int) == s && forall|j: int|
                        s.len() <= j < N ==> call_ensures(T::default, (), #[trigger] a@[j])
                } else {
                    r matches Err(ToArrayError::TooLong(n)) && n == N
                }
            },
    ;
}

impl<I: Iterator> ToArrayDefault<I::Item> for I where I::Item: Default {
    fn take_array_default<const N: usize>(&mut self) -> (r: [I::Item; N]) {
        let mut buf = fill_prefix(self, N);
        let k = buf.len();
        let ghost prefix = buf@;
        while buf.len() < N
            invariant
                k <= buf@.len() <= N,
                buf@.take(k as int) == prefix,
                forall|j: int|
                    k <= j < buf@.len() ==> call_ensures(I::Item::default, (), #[trigger] buf@[j]),
            decreases N - buf@.len(),
        {
            let x = I::Item::default();
            proof {
                assert(buf@.push(x).take(k as int) =~= buf@.take(k as int));
            }
            buf.push(x);
        }
        vec_into_array(buf)
    }

    fn to_array_default<const N: usize>(self) -> (r: Result<[I::Item; N], ToArrayError>) {
        let mut it = self;
        let arr = it.take_array_default::<N>();
        match it.next() {
            Some(_) => Err(ToArrayError::TooLong(N)),
            None => Ok(arr),
        }
    }
}

/// Conversions that fill the slots past the end of the iterator with clones
/// of a given value.
pub trait ToArrayPad<T: Clone>: Iterator<Item = T> + Sized {
    /// Takes up to `N` items into an array; the slots that the iterator
    /// cannot fill get clones of `pad`.
    fn take_array_pad<const N: usize>(&mut self, pad: T) -> (r: [T; N])
        ensures
            (*old(self)).obeys_prophetic_iter_laws() ==> {
                let s = (*old(self)).remaining();
                let k = if s.len() < N { s.len() as int } else { N as int };
                &&& (*final(self)).obeys_prophetic_iter_laws()
                &&& r@.take(k) == s.take(k)
                &&& forall|j: int| k <= j < N ==> cloned(pad, #[trigger] r@[j])
                &&& (*final(self)).remaining() == s.skip(k)
            },
    ;

    /// Collects the whole iterator into an array of `N` items, padded with
    /// clones of `pad`; `TooLong(N)` if it holds more than `N` items.
    fn to_array_pad<const N: usize>(self, pad: T) -> (r: Result<[T; N], ToArrayError>)
        ensures
            self.obeys_prophetic_iter_laws() ==> {
                let s = self.remaining();
                if s.len() <= N {
                    r matches Ok(a) && a@.take(s.len() as int) == s && forall|j: int|
                        s.len() <= j < N ==> cloned(pad, #[trigger] a@[j])
                } else {
                    r matches Err(ToArrayError::TooLong(n)) && n == N
                }
            },
    ;
}

impl<I: Iterator> ToArrayPad<I::Item> for I where I::Item: Clone {
    fn take_array_pad<const N: usize>(&mut self, pad: I::Item) -> (r: [I::Item; N]) {
        let mut buf = fill_prefix(self, N);
        let k = buf.len();
        let ghost prefix = buf@;
        while buf.len() < N
            invariant
                k <= buf@.len() <= N,
                buf@.take(k as int) == prefix,
                forall|j: int| k <= j < buf@.len() ==> cloned(pad, #[trigger] buf@[j]),
            decreases N - buf@.len(),
        {
            let x = pad.clone();
            proof {
                assert(buf@.push(x).take(k as int) =~= buf@.take(k as int));
            }
            buf.push(x);
        }
        vec_into_array(buf)
    }

    fn to_array_pad<const N: usize>(self, pad: I::Item) -> (r: Result<[I::Item; N], ToArrayError>) {
        let mut it = self;
        let arr = it.take_array_pad::<N>(pad);
        match it.next() {
            Some(_) => Err(ToArrayError::TooLong(N)),
            None => Ok(arr),
        }
    }
}

} // verus!
