use vstd::prelude::*;
use vstd::std_specs::iter::IteratorSpec;

verus! {

/// Relies on `<[T; N]>::try_from(Vec<T>)`: a vector of exactly `N` elements
/// becomes the array of the same elements in the same order.
#[verifier::external_body]
pub(crate) fn vec_into_array<T, const N: usize>(v: Vec<T>) -> (r: [T; N])
    requires
        v@.len() == N,
    ensures
        r@ == v@,
{
    <[T; N]>::try_from(v).ok().unwrap()
}

/// Polls `it` until it has produced `n` items or has ended, and returns the
/// items in order. The iterator is never polled again after it ends.
pub(crate) fn fill_prefix<I: Iterator>(it: &mut I, n: usize) -> (buf: Vec<I::Item>)
    ensures
        buf@.len() <= n,
        (*old(it)).obeys_prophetic_iter_laws() ==> {
            let s = (*old(it)).remaining();
            &&& buf@.len() == if s.len() < n { s.len() } else { n as nat }
            &&& buf@ == s.take(buf@.len() as int)
            &&& (*final(it)).obeys_prophetic_iter_laws()
            &&& (*final(it)).remaining() == s.skip(buf@.len() as int)
            &&& ((*final(it)).decrease() is Some <==> (*old(it)).decrease() is Some)
            &&& (buf@.len() == n && n > 0 && (*final(it)).decrease() is Some ==> (*final(
                it)).decrease()->0 < (*old(it)).decrease()->0)
        },
{
    let mut buf: Vec<I::Item> = Vec::new();
    proof {
        let s = (*old(it)).remaining();
        assert(s.skip(0) =~= s);
        assert(s.take(0) =~= buf@);
    }
    while buf.len() < n
        invariant
            buf@.len() <= n,
            (*old(it)).obeys_prophetic_iter_laws() ==> {
                let s = (*old(it)).remaining();
                &&& (*it).obeys_prophetic_iter_laws()
                &&& buf@.len() <= s.len()
                &&& buf@ == s.take(buf@.len() as int)
                &&& (*it).remaining() == s.skip(buf@.len() as int)
                &&& ((*it).decrease() is Some <==> (*old(it)).decrease() is Some)
                &&& (buf@.len() == 0 ==> (*it).decrease() == (*old(it)).decrease())
                &&& (buf@.len() > 0 && (*it).decrease() is Some ==> (*it).decrease()->0 < (*old(
                    it)).decrease()->0)
            },
        decreases n - buf@.len(),
    {
        let ghost pre = *it;
        match it.next() {
            Some(x) => {
                proof {
                    if (*old(it)).obeys_prophetic_iter_laws() && (*it).decrease() is Some {
                        assert(decreases_to!(pre.decrease()->0 => (*it).decrease()->0));
                    }
                    let s = (*old(it)).remaining();
                    let i = buf@.len() as int;
                    if (*old(it)).obeys_prophetic_iter_laws() {
                        assert(s.skip(i).drop_first() =~= s.skip(i + 1));
                        assert(buf@.push(x) =~= s.take(i + 1));
                    }
                }
                buf.push(x);
            },
            None => {
                return buf;
            },
        }
    }
    buf
}

} // verus!
