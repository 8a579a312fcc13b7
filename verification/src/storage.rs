//! Trusted view of the word buffer behind a layer bitmask.
//!
//! The bitmask keeps its 64-bit words in a `smallvec::SmallVec` so that up to
//! 64 layers fit without heap allocation. Verus does not read that crate and
//! refuses its generic parameter's trait bound, so this module holds the
//! vector in an opaque buffer type, names the sequence of words a buffer
//! holds, and wraps each buffer operation the bitmask uses behind a contract.

use vstd::prelude::*;

verus! {

/// An opaque buffer of 64-bit words, backed by `smallvec::SmallVec` with
/// inline capacity for one word.
#[verifier::external_body]
pub struct WordBuf {
    buf: smallvec::SmallVec<[u64; 1]>,
}

/// The 64-bit words a buffer holds, in storage order.
pub uninterp spec fn sv_words(v: WordBuf) -> Seq<u64>;

/// Relies on `smallvec::SmallVec::new`: constructs an empty vector.
#[verifier::external_body]
pub(crate) fn words_new() -> (v: WordBuf)
    ensures
        sv_words(v) == Seq::<u64>::empty(),
{
    WordBuf { buf: smallvec::SmallVec::new() }
}

/// Relies on `smallvec::SmallVec::len`: the number of stored elements.
#[verifier::external_body]
pub(crate) fn words_len(v: &WordBuf) -> (n: usize)
    ensures
        n == sv_words(*v).len(),
{
    v.buf.len()
}

/// Relies on `smallvec::SmallVec`'s `Index` impl (via its slice deref):
/// returns the element at `i`.
#[verifier::external_body]
pub(crate) fn words_get(v: &WordBuf, i: usize) -> (w: u64)
    requires
        i < sv_words(*v).len(),
    ensures
        w == sv_words(*v)[i as int],
{
    v.buf[i]
}

/// Relies on `smallvec::SmallVec`'s `IndexMut` impl (via its slice deref):
/// replaces the element at `i`.
#[verifier::external_body]
pub(crate) fn words_set(v: &mut WordBuf, i: usize, w: u64)
    requires
        i < sv_words(*old(v)).len(),
    ensures
        sv_words(*final(v)) == sv_words(*old(v)).update(i as int, w),
{
    v.buf[i] = w;
}

/// Relies on `smallvec::SmallVec::resize`: truncates to `n` elements, or
/// appends copies of `value` until the length is `n`.
#[verifier::external_body]
pub(crate) fn words_resize(v: &mut WordBuf, n: usize, value: u64)
    ensures
        sv_words(*final(v)).len() == n,
        forall|j: int|
            0 <= j < n && j < sv_words(*old(v)).len() ==> sv_words(*final(v))[j] == sv_words(
                *old(v),
            )[j],
        forall|j: int| sv_words(*old(v)).len() <= j < n ==> sv_words(*final(v))[j] == value,
{
    v.buf.resize(n, value);
}

/// Relies on `smallvec::SmallVec::clear`: removes all elements, keeping the
/// allocated capacity.
#[verifier::external_body]
pub(crate) fn words_clear(v: &mut WordBuf)
    ensures
        sv_words(*final(v)) == Seq::<u64>::empty(),
{
    v.buf.clear();
}

/// Relies on `smallvec::SmallVec::extend_from_slice`: appends the slice's
/// elements in order.
#[verifier::external_body]
pub(crate) fn words_extend_from_slice(v: &mut WordBuf, s: &[u64])
    ensures
        sv_words(*final(v)) == sv_words(*old(v)) + s@,
{
    v.buf.extend_from_slice(s);
}

/// Relies on `smallvec::SmallVec::as_slice`: borrows all elements in order.
#[verifier::external_body]
pub(crate) fn words_as_slice(v: &WordBuf) -> (s: &[u64])
    ensures
        s@ == sv_words(*v),
{
    v.buf.as_slice()
}

/// Relies on `smallvec::SmallVec`'s `Clone` impl: copies all elements in order.
#[verifier::external_body]
pub(crate) fn words_clone(v: &WordBuf) -> (r: WordBuf)
    ensures
        sv_words(r) == sv_words(*v),
{
    WordBuf { buf: v.buf.clone() }
}

} // verus!
