//! Bit-level model of a layer bitmask.
//!
//! A bitmask is a sequence of 64-bit words; bit `b` of word `i` stands for
//! layer `64 * i + b`. This module defines membership over such a word
//! sequence and proves the word-level facts that the executable operations
//! rely on.

use vstd::prelude::*;

verus! {

/// True if bit `b` of word `w` is set.
pub open spec fn bit_set(w: u64, b: u64) -> bool
    recommends
        b < 64,
{
    w & (1u64 << b) != 0
}

/// True if `layer` is a member of the bitmask held by `words`.
///
/// A layer whose word index lies beyond the sequence is absent; words are
/// never consulted past the stored length.
pub open spec fn has_layer(words: Seq<u64>, layer: nat) -> bool {
    layer / 64 < words.len() && bit_set(words[(layer / 64) as int], (layer % 64) as u64)
}

/// Setting bit `b` of a word sets exactly that bit and keeps every other bit.
pub proof fn lemma_or_mask(w: u64, b: u64, b2: u64)
    requires
        b < 64,
        b2 < 64,
    ensures
        bit_set(w | (1u64 << b), b2) == (bit_set(w, b2) || b2 == b),
{
    assert(((w | (1u64 << b)) & (1u64 << b2) != 0) == ((w & (1u64 << b2) != 0) || b2 == b))
        by (bit_vector)
        requires
            b < 64,
            b2 < 64,
    ;
}

/// Clearing bit `b` of a word clears exactly that bit and keeps every other bit.
pub proof fn lemma_clear_mask(w: u64, b: u64, b2: u64)
    requires
        b < 64,
        b2 < 64,
    ensures
        bit_set(w & !(1u64 << b), b2) == (bit_set(w, b2) && b2 != b),
{
    assert(((w & !(1u64 << b)) & (1u64 << b2) != 0) == ((w & (1u64 << b2) != 0) && b2 != b))
        by (bit_vector)
        requires
            b < 64,
            b2 < 64,
    ;
}

/// A bit of a bitwise OR is set exactly when it is set on either side.
pub proof fn lemma_or_word(w1: u64, w2: u64, b: u64)
    requires
        b < 64,
    ensures
        bit_set(w1 | w2, b) == (bit_set(w1, b) || bit_set(w2, b)),
{
    assert(((w1 | w2) & (1u64 << b) != 0) == ((w1 & (1u64 << b) != 0) || (w2 & (1u64 << b) != 0)))
        by (bit_vector)
        requires
            b < 64,
    ;
}

/// A bit of a bitwise AND is set exactly when it is set on both sides.
pub proof fn lemma_and_word(w1: u64, w2: u64, b: u64)
    requires
        b < 64,
    ensures
        bit_set(w1 & w2, b) == (bit_set(w1, b) && bit_set(w2, b)),
{
    assert(((w1 & w2) & (1u64 << b) != 0) == ((w1 & (1u64 << b) != 0) && (w2 & (1u64 << b) != 0)))
        by (bit_vector)
        requires
            b < 64,
    ;
}

/// A word with a bit set on both sides of an AND is nonzero.
pub proof fn lemma_and_nonzero(w1: u64, w2: u64, b: u64)
    requires
        b < 64,
        bit_set(w1, b),
        bit_set(w2, b),
    ensures
        w1 & w2 != 0,
{
    assert(w1 & (1u64 << b) != 0 && w2 & (1u64 << b) != 0 ==> w1 & w2 != 0) by (bit_vector)
        requires
            b < 64,
    ;
}

/// The zero word has no bit set.
pub proof fn lemma_zero_bit(b: u64)
    requires
        b < 64,
    ensures
        !bit_set(0u64, b),
{
    assert(0u64 & (1u64 << b) == 0) by (bit_vector)
        requires
            b < 64,
    ;
}

/// Produces the index of some set bit of a nonzero word.
pub proof fn find_set_bit(w: u64) -> (b: u64)
    requires
        w != 0,
    ensures
        b < 64,
        bit_set(w, b),
    decreases w,
{
    if w & 1 != 0 {
        assert(w & (1u64 << 0u64) != 0) by (bit_vector)
            requires
                w & 1 != 0,
        ;
        0u64
    } else {
        assert(w >> 1u64 != 0 && w >> 1u64 < w) by (bit_vector)
            requires
                w != 0 && w & 1 == 0,
        ;
        let b0 = find_set_bit(w >> 1u64);
        assert((w >> 1u64) & (1u64 << 63u64) == 0) by (bit_vector);
        assert(b0 < 63);
        let b1: u64 = (b0 + 1) as u64;
        assert(w & (1u64 << b1) != 0) by (bit_vector)
            requires
                b0 < 63,
                b1 == b0 + 1,
                (w >> 1u64) & (1u64 << b0) != 0,
        ;
        b1
    }
}

/// Two words that agree on every bit are equal.
pub proof fn lemma_word_eq_by_bits(w1: u64, w2: u64)
    requires
        forall|b: u64| b < 64 ==> (bit_set(w1, b) == bit_set(w2, b)),
    ensures
        w1 == w2,
{
    if w1 != w2 {
        assert(w1 ^ w2 != 0) by (bit_vector)
            requires
                w1 != w2,
        ;
        let k = find_set_bit(w1 ^ w2);
        assert(((w1 ^ w2) & (1u64 << k) != 0) ==> ((w1 & (1u64 << k) != 0) != (w2 & (1u64 << k)
            != 0))) by (bit_vector)
            requires
                k < 64,
        ;
        assert(bit_set(w1, k) != bit_set(w2, k));
    }
}

/// Bitmasks whose words differ at one position hold different layers there.
pub proof fn lemma_differing_word_differing_layer(a: Seq<u64>, b: Seq<u64>, j: int) -> (l: nat)
    requires
        0 <= j < a.len(),
        j < b.len(),
        a[j] != b[j],
    ensures
        has_layer(a, l) != has_layer(b, l),
{
    let w1 = a[j];
    let w2 = b[j];
    assert(w1 ^ w2 != 0) by (bit_vector)
        requires
            w1 != w2,
    ;
    let k = find_set_bit(w1 ^ w2);
    assert(((w1 ^ w2) & (1u64 << k) != 0) ==> ((w1 & (1u64 << k) != 0) != (w2 & (1u64 << k)
        != 0))) by (bit_vector)
        requires
            k < 64,
    ;
    let l = (j * 64 + k) as nat;
    assert(l / 64 == j && l % 64 == k);
    l
}

/// A nonzero word holds some layer of its bitmask.
pub proof fn lemma_nonzero_word_layer(a: Seq<u64>, j: int) -> (l: nat)
    requires
        0 <= j < a.len(),
        a[j] != 0,
    ensures
        has_layer(a, l),
        l / 64 == j,
{
    let k = find_set_bit(a[j]);
    let l = (j * 64 + k) as nat;
    assert(l / 64 == j && l % 64 == k);
    l
}

/// Extending a bitmask with all-zero words changes no membership.
pub proof fn lemma_extend_zeros(ws: Seq<u64>, ws2: Seq<u64>)
    requires
        ws.len() <= ws2.len(),
        forall|j: int| 0 <= j < ws.len() ==> ws2[j] == ws[j],
        forall|j: int| ws.len() <= j < ws2.len() ==> ws2[j] == 0u64,
    ensures
        forall|l: nat| has_layer(ws2, l) == has_layer(ws, l),
{
    assert forall|l: nat| has_layer(ws2, l) == has_layer(ws, l) by {
        let wi = (l / 64) as int;
        if wi < ws2.len() && wi >= ws.len() {
            lemma_zero_bit((l % 64) as u64);
        }
    }
}

/// Setting the bit of `layer` in its word adds exactly `layer` to the bitmask.
pub proof fn lemma_set_bit(ws: Seq<u64>, ws2: Seq<u64>, layer: nat)
    requires
        layer / 64 < ws.len(),
        ws2 == ws.update((layer / 64) as int, ws[(layer / 64) as int] | (1u64 << ((layer % 64) as u64))),
    ensures
        forall|l: nat| has_layer(ws2, l) == (has_layer(ws, l) || l == layer),
{
    assert forall|l: nat| has_layer(ws2, l) == (has_layer(ws, l) || l == layer) by {
        let wi = (layer / 64) as int;
        let b = (layer % 64) as u64;
        let wi2 = (l / 64) as int;
        let b2 = (l % 64) as u64;
        if wi2 < ws.len() {
            if wi2 == wi {
                lemma_or_mask(ws[wi], b, b2);
            }
        }
    }
}

/// Clearing the bit of `layer` in its word removes exactly `layer` from the bitmask.
pub proof fn lemma_clear_bit(ws: Seq<u64>, ws2: Seq<u64>, layer: nat)
    requires
        layer / 64 < ws.len(),
        ws2 == ws.update((layer / 64) as int, ws[(layer / 64) as int] & !(1u64 << ((layer % 64) as u64))),
    ensures
        forall|l: nat| has_layer(ws2, l) == (has_layer(ws, l) && l != layer),
{
    assert forall|l: nat| has_layer(ws2, l) == (has_layer(ws, l) && l != layer) by {
        let wi = (layer / 64) as int;
        let b = (layer % 64) as u64;
        let wi2 = (l / 64) as int;
        let b2 = (l % 64) as u64;
        if wi2 < ws.len() {
            if wi2 == wi {
                lemma_clear_mask(ws[wi], b, b2);
            }
        }
    }
}

/// OR-ing the words of `other` into a long-enough bitmask unions the two
/// bitmasks' members.
pub proof fn lemma_or_words(ws: Seq<u64>, other: Seq<u64>, m: Seq<u64>)
    requires
        other.len() <= ws.len(),
        m.len() == ws.len(),
        forall|j: int| 0 <= j < other.len() ==> m[j] == (ws[j] | other[j]),
        forall|j: int| other.len() <= j < ws.len() ==> m[j] == ws[j],
    ensures
        forall|l: nat| has_layer(m, l) == (has_layer(ws, l) || has_layer(other, l)),
{
    assert forall|l: nat| has_layer(m, l) == (has_layer(ws, l) || has_layer(other, l)) by {
        let wi = (l / 64) as int;
        let b = (l % 64) as u64;
        if wi < other.len() {
            lemma_or_word(ws[wi], other[wi], b);
        }
    }
}

/// A nonzero AND of the words at one position yields a layer in both bitmasks.
pub proof fn lemma_common_word_common_layer(a: Seq<u64>, b: Seq<u64>, i: int) -> (l: nat)
    requires
        0 <= i < a.len(),
        i < b.len(),
        a[i] & b[i] != 0,
    ensures
        has_layer(a, l) && has_layer(b, l),
{
    let bit = find_set_bit(a[i] & b[i]);
    lemma_and_word(a[i], b[i], bit);
    let l = (i * 64 + bit) as nat;
    assert(l / 64 == i && l % 64 == bit);
    l
}

} // verus!
