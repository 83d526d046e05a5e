use crate::convert::take_partial;
use crate::padding::{DefaultPad, Padding};
use crate::error::MaybePartial;
use vstd::arithmetic::div_mod::lemma_fundamental_div_mod_converse;
use vstd::prelude::*;
use vstd::std_specs::iter::IteratorSpec;

verus! {

broadcast use vstd::function::group_function_axioms;

/// Cuts an iterator into successive arrays of `N` items. The last array is
/// completed by the padding function when the iterator's length is not a
/// multiple of `N`; an iterator that has ended yields no further array.
pub struct ChunksIter<I: Iterator, F: Padding<<I as Iterator>::Item>, const N: usize> {
    iter: I,
    padding: F,
}

impl<I: Iterator, F: Padding<<I as Iterator>::Item>, const N: usize> ChunksIter<I, F, N> {
    /// The iterator that the chunks are taken from.
    pub closed spec fn source(&self) -> I {
        self.iter
    }

    /// The function that completes a short last chunk.
    pub closed spec fn padding_fn(&self) -> F {
        self.padding
    }

    /// The next chunk: the next `N` items of the source; or, where fewer
    /// but at least one are left, those items followed by padding; or `None`
    /// where the source has ended.
    pub fn next(&mut self) -> (r: Option<[I::Item; N]>)
        requires
            old(self).padding_fn().can_pad(),
        ensures
            final(self).padding_fn() == old(self).padding_fn(),
            old(self).source().obeys_prophetic_iter_laws() ==> {
                let s = old(self).source().remaining();
                &&& final(self).source().obeys_prophetic_iter_laws()
                &&& if s.len() >= N {
                    &&& r matches Some(a) && a@ == s.take(N as int)
                    &&& final(self).source().remaining() == s.skip(N as int)
                } else if s.len() == 0 {
                    &&& r is None
                    &&& final(self).source().remaining().len() == 0
                } else {
                    &&& r matches Some(a) && a@.take(s.len() as int) == s && forall|j: int|
                        s.len() <= j < N ==> old(self).padding_fn().pads_with(
                            #[trigger] a@[j],
                        )
                    &&& final(self).source().remaining().len() == 0
                }
            },
    {
        match take_partial(&mut self.iter, &mut self.padding) {
            MaybePartial::Empty => None,
            MaybePartial::Partial(x, _) => Some(x),
            MaybePartial::Full(x) => Some(x),
        }
    }

    /// All the chunks, in order: for a source of `L` items, `L / N` rounded
    /// up of them (none for an empty source). Slot `j` of chunk `c` holds item
    /// `c * N + j` of the source where there is one, and padding after the
    /// source's end; so only the last chunk can hold padding.
    ///
    /// The chunk size must be positive: with `N == 0` every chunk is empty and
    /// the chunks never end. The source must keep the iterator laws and carry a
    /// termination measure (`decrease`), from which the loop is proved to end.
    pub fn collect_chunks(self) -> (r: Vec<[I::Item; N]>)
        requires
            N > 0,
            self.padding_fn().can_pad(),
            self.source().obeys_prophetic_iter_laws(),
            self.source().decrease() is Some,
        ensures
            ({
                let s = self.source().remaining();
                &&& r@.len() == chunk_count(s.len() as int, N as int)
                &&& forall|c: int, j: int|
                    0 <= c < r@.len() && 0 <= j < N && c * N + j < s.len() ==> #[trigger] r@[c]@[j]
                        == s[c * N + j]
                &&& forall|c: int, j: int|
                    0 <= c < r@.len() && 0 <= j < N && c * N + j >= s.len()
                        ==> self.padding_fn().pads_with(#[trigger] r@[c]@[j])
            }),
    {
        let mut it = self;
        collect_all::<I, F, N>(&mut it.iter, &mut it.padding)
    }
}

/// `len` divided by `n`, rounded up: the number of chunks of size `n` that
/// `len` items fill.
pub open spec fn chunk_count(len: int, n: int) -> int {
    (len + n - 1) / n
}

proof fn lemma_chunk_count(c: int, n: int, len: int)
    requires
        n > 0,
        c >= 0,
        len >= 0,
        len <= c * n,
        c == 0 || (c - 1) * n < len,
    ensures
        c == chunk_count(len, n),
{
    assert(c * n - n < len <= c * n) by (nonlinear_arith)
        requires
            len <= c * n,
            c == 0 || (c - 1) * n < len,
            n > 0,
            len >= 0,
    ;
    assert(len + n - 1 == c * n + (len + n - 1 - c * n));
    lemma_fundamental_div_mod_converse(len + n - 1, n, c, len + n - 1 - c * n);
}

/// Takes chunks of `N` items from `it` until it ends; see
/// `ChunksIter::collect_chunks`.
fn collect_all<I: Iterator, F: Padding<I::Item>, const N: usize>(it: &mut I, pad: &mut F) -> (r:
    Vec<[I::Item; N]>)
    requires
        N > 0,
        (*old(pad)).can_pad(),
        (*old(it)).obeys_prophetic_iter_laws(),
        (*old(it)).decrease() is Some,
    ensures
        ({
            let s = (*old(it)).remaining();
            &&& r@.len() == chunk_count(s.len() as int, N as int)
            &&& forall|c: int, j: int|
                0 <= c < r@.len() && 0 <= j < N && c * N + j < s.len() ==> #[trigger] r@[c]@[j]
                    == s[c * N + j]
            &&& forall|c: int, j: int|
                0 <= c < r@.len() && 0 <= j < N && c * N + j >= s.len() ==> (*old(pad)).pads_with(
                    #[trigger] r@[c]@[j],
                )
        }),
{
    let ghost n = N as int;
    let mut out: Vec<[I::Item; N]> = Vec::new();
    proof {
        assert((*old(it)).remaining().skip(0) =~= (*old(it)).remaining());
        assert(0 * n == 0);
    }
    loop
        invariant_except_break
            ({
                let s = (*old(it)).remaining();
                let len = s.len() as int;
                let c = out@.len() as int;
                &&& c * n <= len
                &&& (*it).remaining() == s.skip(c * n)
                &&& forall|c1: int, j: int|
                    0 <= c1 < c && 0 <= j < n ==> #[trigger] out@[c1]@[j] == s[c1 * n + j]
            }),
        invariant
            N > 0,
            n == N as int,
            *pad == *old(pad),
            (*pad).can_pad(),
            (*it).obeys_prophetic_iter_laws(),
            (*it).decrease() is Some,
        ensures
            ({
                let s = (*old(it)).remaining();
                let len = s.len() as int;
                let c = out@.len() as int;
                &&& len <= c * n
                &&& c == 0 || (c - 1) * n < len
                &&& forall|c1: int, j: int|
                    0 <= c1 < c && 0 <= j < n && c1 * n + j < len ==> #[trigger] out@[c1]@[j]
                        == s[c1 * n + j]
                &&& forall|c1: int, j: int|
                    0 <= c1 < c && 0 <= j < n && c1 * n + j >= len ==> (*old(pad)).pads_with(
                        #[trigger] out@[c1]@[j],
                    )
            }),
        decreases (*it).decrease()->0,
    {
        let ghost c = out@.len() as int;
        proof {
            assert(c * n + n == (c + 1) * n) by (nonlinear_arith);
            assert((c + 1 - 1) * n == c * n) by (nonlinear_arith);
        }
        match take_partial::<I, F, N>(it, pad) {
            MaybePartial::Full(a) => {
                let ghost before = out@;
                out.push(a);
                proof {
                    let s = (*old(it)).remaining();
                    assert(s.skip(c * n).skip(n) =~= s.skip((c + 1) * n));
                    assert((c + 1) * n <= s.len());
                    assert forall|c1: int, j: int| 0 <= c1 < out@.len() && 0 <= j < n implies #[trigger] out@[c1]@[j] == s[c1 * n + j] by {
                        if c1 == c {
                            assert(out@[c1] == a);
                            assert(a@[j] == s.skip(c * n)[j]);
                        } else {
                            assert(out@[c1] == before[c1]);
                            assert(before[c1]@[j] == s[c1 * n + j]);
                            assert(c1 * n + n <= c * n) by (nonlinear_arith)
                                requires
                                    c1 < c,
                                    n > 0,
                            ;
                        }
                    }
                }
            },
            MaybePartial::Partial(a, _) => {
                proof {
                    let s = (*old(it)).remaining();
                    assert forall|c1: int, j: int|
                        0 <= c1 < c + 1 && 0 <= j < n && c1 * n + j < s.len() implies #[trigger] out@.push(
                        a,
                    )[c1]@[j] == s[c1 * n + j] by {
                        if c1 == c {
                            assert(out@.push(a)[c1] == a);
                            assert(a@.take(s.len() - c * n)[j] == s.skip(c * n)[j]);
                        } else {
                            assert(out@.push(a)[c1] == out@[c1]);
                            assert(out@[c1]@[j] == s[c1 * n + j]);
                        }
                    }
                    assert forall|c1: int, j: int|
                        0 <= c1 < c + 1 && 0 <= j < n && c1 * n + j >= s.len() implies (*old(
                        pad)).pads_with(#[trigger] out@.push(a)[c1]@[j]) by {
                        if c1 == c {
                            assert(out@.push(a)[c1] == a);
                        } else {
                            assert(c1 * n + n <= c * n) by (nonlinear_arith)
                                requires
                                    c1 < c,
                                    n > 0,
                            ;
                        }
                    }
                }
                out.push(a);
                break ;
            },
            MaybePartial::Empty => {
                proof {
                    let s = (*old(it)).remaining();
                    if c > 0 {
                        assert((c - 1) * n < c * n) by (nonlinear_arith)
                            requires
                                n > 0,
                        ;
                    }
                    assert forall|c1: int, j: int|
                        0 <= c1 < c && 0 <= j < n && c1 * n + j >= s.len() implies (*old(
                        pad)).pads_with(#[trigger] out@[c1]@[j]) by {
                        assert(c1 * n + n <= c * n) by (nonlinear_arith)
                            requires
                                c1 < c,
                                n > 0,
                        ;
                    }
                }
                break ;
            },
        }
    }
    proof {
        lemma_chunk_count(out@.len() as int, N as int, (*old(it)).remaining().len() as int);
    }
    out
}

/// Chunking of an iterator with a padding function.
pub trait Chunks: Iterator + Sized {
    /// Wraps the iterator into a `ChunksIter` of chunk size `N`.
    fn chunks<F: FnMut() -> <Self as Iterator>::Item, const N: usize>(self, padding: F) -> (r:
        ChunksIter<Self, F, N>)
        ensures
            r.source() == self,
            r.padding_fn() == padding,
    ;
}

impl<I> Chunks for I where I: Iterator + Sized {
    fn chunks<F: FnMut() -> <I as Iterator>::Item, const N: usize>(self, padding: F) -> (r:
        ChunksIter<I, F, N>) {
        ChunksIter { iter: self, padding }
    }
}

/// Chunking of an iterator whose last chunk is padded with default values.
pub trait ChunksDefault: Iterator + Sized where <Self as Iterator>::Item: Default {
    /// Wraps the iterator into a `ChunksIter` of chunk size `N` that pads with
    /// the item type's default value.
    fn chunks_default<const N: usize>(self) -> (r: ChunksIter<Self, DefaultPad, N>)
        ensures
            r.source() == self,
    ;
}

impl<I> ChunksDefault for I where I: Iterator, <I as Iterator>::Item: Default {
    fn chunks_default<const N: usize>(self) -> (r: ChunksIter<I, DefaultPad, N>) {
        ChunksIter { iter: self, padding: DefaultPad }
    }
}

} // verus!
