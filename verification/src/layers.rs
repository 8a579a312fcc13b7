//! The growable layer bitmask.

use vstd::prelude::*;

use crate::bits::{
    bit_set, has_layer, lemma_and_nonzero, lemma_clear_bit, lemma_common_word_common_layer,
    lemma_differing_word_differing_layer, lemma_extend_zeros, lemma_nonzero_word_layer,
    lemma_or_words, lemma_set_bit, lemma_word_eq_by_bits, lemma_zero_bit,
};
use crate::layer::{RenderLayer, DEFAULT_RENDER_LAYER};
use crate::storage::{
    sv_words, words_as_slice, words_clear, words_clone, words_extend_from_slice, words_get,
    words_len, words_new, words_resize, words_set, WordBuf,
};

verus! {

/// Records a growable bitmask of flags for controlling which entities are
/// visible to which cameras.
///
/// Individual render layers are identified by [`RenderLayer`], an index into
/// the bitmask: bit `b` of word `i` stands for layer `64 * i + b`. Up to 64
/// layers are stored without heap allocation; storage grows in whole-word
/// increments when a higher layer is added, and never shrinks on removal.
pub struct RenderLayers {
    layers: WordBuf,
}

impl RenderLayers {
    /// The backing words of the bitmask, in order.
    pub closed spec fn words(&self) -> Seq<u64> {
        sv_words(self.layers)
    }

    /// True if `layer` is a member of the bitmask.
    pub open spec fn spec_contains(&self, layer: nat) -> bool {
        has_layer(self.words(), layer)
    }

    /// The set of all layers the bitmask holds.
    pub open spec fn layer_set(&self) -> Set<nat> {
        Set::new(|l: nat| self.spec_contains(l))
    }

    /// The backing storage never outgrows the word that holds layer
    /// `usize::MAX`, the largest representable layer index.
    pub open spec fn wf(&self) -> bool {
        self.words().len() <= usize::MAX as nat / 64 + 1
    }

    /// True if the backing holds no trailing all-zero word: it is empty, or
    /// its last word holds a layer.
    ///
    /// Construction ([`Self::empty`], [`Self::from_layers`], `default`) and
    /// growth ([`Self::add`], [`Self::merge`]) keep the backing minimal;
    /// only [`Self::remove`] can leave a trailing all-zero word behind,
    /// since it never shrinks the backing.
    pub open spec fn minimal_backing(&self) -> bool {
        self.words().len() == 0 || exists|l: nat|
            self.spec_contains(l) && l / 64 + 1 == self.words().len()
    }

    /// Makes a new `RenderLayers` with no layers.
    pub fn empty() -> (r: Self)
        ensures
            r.wf(),
            r.minimal_backing(),
            r.words() == Seq::<u64>::empty(),
            r.layer_set() == Set::<nat>::empty(),
    {
        let r = RenderLayers { layers: words_new() };
        proof {
            assert(r.layer_set() =~= Set::<nat>::empty());
        }
        r
    }

    /// Grows the backing storage to at least `len` words, zero-filling the
    /// new words. Membership is unchanged.
    fn extend_buffer(&mut self, len: usize)
        requires
            len <= usize::MAX as nat / 64 + 1,
            old(self).wf(),
        ensures
            final(self).wf(),
            final(self).words().len() == (if old(self).words().len() >= len {
                old(self).words().len() as int
            } else {
                len as int
            }),
            forall|j: int|
                0 <= j < old(self).words().len() ==> final(self).words()[j] == old(self).words()[j],
            forall|j: int|
                old(self).words().len() <= j < final(self).words().len()
                    ==> final(self).words()[j] == 0u64,
            final(self).layer_set() == old(self).layer_set(),
    {
        let cur = words_len(&self.layers);
        let new_size = if cur >= len {
            cur
        } else {
            len
        };
        words_resize(&mut self.layers, new_size, 0u64);
        proof {
            lemma_extend_zeros(old(self).words(), self.words());
            assert(self.layer_set() =~= old(self).layer_set());
        }
    }

    /// Adds a [`RenderLayer`].
    ///
    /// Grows the backing storage if the layer's word index lies beyond it.
    pub fn add(&mut self, layer: RenderLayer)
        requires
            old(self).wf(),
        ensures
            final(self).wf(),
            final(self).layer_set() == old(self).layer_set().insert(layer.0 as nat),
            final(self).spec_contains(layer.0 as nat),
            final(self).words().len() == (if old(self).words().len() >= layer.0 as int / 64 + 1 {
                old(self).words().len() as int
            } else {
                layer.0 as int / 64 + 1
            }),
            old(self).minimal_backing() ==> final(self).minimal_backing(),
    {
        let buffer_index = layer.0 / 64;
        let bit: u64 = 1u64 << ((layer.0 % 64) as u64);
        self.extend_buffer(buffer_index + 1);
        let ghost mid = self.words();
        let w = words_get(&self.layers, buffer_index);
        words_set(&mut self.layers, buffer_index, w | bit);
        proof {
            lemma_set_bit(mid, self.words(), layer.0 as nat);
            assert(self.layer_set() =~= old(self).layer_set().insert(layer.0 as nat));
            if old(self).minimal_backing() {
                if old(self).words().len() >= layer.0 as int / 64 + 1 {
                    let l0 = choose|l: nat|
                        old(self).spec_contains(l) && l / 64 + 1 == old(self).words().len();
                    assert(self.layer_set().contains(l0));
                    assert(self.spec_contains(l0) && l0 / 64 + 1 == self.words().len());
                } else {
                    assert(self.spec_contains(layer.0 as nat) && layer.0 as nat / 64 + 1
                        == self.words().len());
                }
            }
        }
    }

    /// Removes a [`RenderLayer`].
    ///
    /// Removing a layer that was never added is a no-op. Does not shrink the
    /// backing storage even if doing so is possible after removing the layer:
    /// a caller who added a large layer may well re-add another one.
    pub fn remove(&mut self, layer: RenderLayer)
        ensures
            final(self).words().len() == old(self).words().len(),
            final(self).layer_set() == old(self).layer_set().remove(layer.0 as nat),
            !final(self).spec_contains(layer.0 as nat),
            forall|j: int|
                0 <= j < old(self).words().len() && j != layer.0 as int / 64
                    ==> final(self).words()[j] == old(self).words()[j],
    {
        let buffer_index = layer.0 / 64;
        let bit: u64 = 1u64 << ((layer.0 % 64) as u64);
        let n = words_len(&self.layers);
        if buffer_index >= n {
            proof {
                assert(self.layer_set() =~= old(self).layer_set().remove(layer.0 as nat));
            }
            return ;
        }
        let w = words_get(&self.layers, buffer_index);
        words_set(&mut self.layers, buffer_index, w & !bit);
        proof {
            lemma_clear_bit(old(self).words(), self.words(), layer.0 as nat);
            assert(self.layer_set() =~= old(self).layer_set().remove(layer.0 as nat));
        }
    }

    /// Clears all stored render layers without deallocating.
    pub fn clear(&mut self)
        ensures
            final(self).words() == Seq::<u64>::empty(),
            final(self).layer_set() == Set::<nat>::empty(),
    {
        words_clear(&mut self.layers);
        proof {
            assert(self.layer_set() =~= Set::<nat>::empty());
        }
    }

    /// Copies `other` into `self`, backing length included.
    ///
    /// This is more efficient than cloning `other` when reusing a
    /// `RenderLayers` that is potentially allocated.
    pub fn set_from(&mut self, other: &Self)
        ensures
            final(self).words() == other.words(),
            final(self).layer_set() == other.layer_set(),
    {
        words_clear(&mut self.layers);
        let s = words_as_slice(&other.layers);
        words_extend_from_slice(&mut self.layers, s);
        proof {
            assert(self.words() =~= other.words());
            assert(self.layer_set() =~= other.layer_set());
        }
    }

    /// Merges `other` into `self`.
    ///
    /// After merging, `self` includes all layers of `other` and of its prior
    /// value. Grows the backing storage if necessary to cover `other`.
    pub fn merge(&mut self, other: &Self)
        requires
            old(self).wf(),
            other.wf(),
        ensures
            final(self).wf(),
            final(self).layer_set() == old(self).layer_set().union(other.layer_set()),
            forall|l: nat|
                old(self).spec_contains(l) || other.spec_contains(l)
                    ==> final(self).spec_contains(l),
            final(self).words().len() == (if old(self).words().len() >= other.words().len() {
                old(self).words().len() as int
            } else {
                other.words().len() as int
            }),
            old(self).minimal_backing() && other.minimal_backing()
                ==> final(self).minimal_backing(),
    {
        let other_len = words_len(&other.layers);
        self.extend_buffer(other_len);
        let ghost mid = self.words();
        let mut i: usize = 0;
        while i < other_len
            invariant
                other_len == other.words().len(),
                self.words().len() == mid.len(),
                other_len <= mid.len(),
                i <= other_len,
                forall|j: int| 0 <= j < i ==> self.words()[j] == (mid[j] | other.words()[j]),
                forall|j: int| i <= j < mid.len() ==> self.words()[j] == mid[j],
            decreases other_len - i,
        {
            let sw = words_get(&self.layers, i);
            let ow = words_get(&other.layers, i);
            words_set(&mut self.layers, i, sw | ow);
            i += 1;
        }
        proof {
            lemma_or_words(mid, other.words(), self.words());
            assert(self.layer_set() =~= old(self).layer_set().union(other.layer_set()));
            if old(self).minimal_backing() && other.minimal_backing() {
                if old(self).words().len() >= other.words().len() {
                    if old(self).words().len() > 0 {
                        let l0 = choose|l: nat|
                            old(self).spec_contains(l) && l / 64 + 1 == old(self).words().len();
                        assert(self.layer_set().contains(l0));
                        assert(self.spec_contains(l0) && l0 / 64 + 1 == self.words().len());
                    }
                } else {
                    let l0 = choose|l: nat|
                        other.spec_contains(l) && l / 64 + 1 == other.words().len();
                    assert(self.layer_set().contains(l0));
                    assert(self.spec_contains(l0) && l0 / 64 + 1 == self.words().len());
                }
            }
        }
    }

    /// Returns `true` if the specified render layer is included in this
    /// `RenderLayers`.
    ///
    /// A layer whose word index lies beyond the backing storage is absent.
    pub fn contains(&self, layer: RenderLayer) -> (r: bool)
        ensures
            r == self.spec_contains(layer.0 as nat),
            r == self.layer_set().contains(layer.0 as nat),
    {
        let buffer_index = layer.0 / 64;
        let n = words_len(&self.layers);
        if buffer_index >= n {
            return false;
        }
        let w = words_get(&self.layers, buffer_index);
        (w & (1u64 << ((layer.0 % 64) as u64))) != 0
    }

    /// Returns `true` if `self` and `other` contain any matching layers.
    ///
    /// Word pairs are compared up to the shorter backing length; words beyond
    /// it are implicitly zero and never compared.
    pub fn intersects(&self, other: &Self) -> (r: bool)
        ensures
            r == sets_intersect(self.layer_set(), other.layer_set()),
    {
        let an = words_len(&self.layers);
        let bn = words_len(&other.layers);
        let m = if an <= bn {
            an
        } else {
            bn
        };
        let mut i: usize = 0;
        while i < m
            invariant
                m <= self.words().len(),
                m <= other.words().len(),
                m >= self.words().len() || m >= other.words().len(),
                i <= m,
                forall|j: int| 0 <= j < i ==> (self.words()[j] & other.words()[j]) == 0u64,
            decreases m - i,
        {
            let sw = words_get(&self.layers, i);
            let ow = words_get(&other.layers, i);
            if sw & ow != 0 {
                proof {
                    let l = lemma_common_word_common_layer(
                        self.words(),
                        other.words(),
                        i as int,
                    );
                    assert(self.layer_set().contains(l) && other.layer_set().contains(l));
                }
                return true;
            }
            i += 1;
        }
        proof {
            assert forall|l: nat|
                !(self.layer_set().contains(l) && other.layer_set().contains(l)) by {
                if self.spec_contains(l) && other.spec_contains(l) {
                    let wi = (l / 64) as int;
                    lemma_and_nonzero(self.words()[wi], other.words()[wi], (l % 64) as u64);
                }
            }
        }
        false
    }

    /// Gets the bitmask representation of the contained layers as a
    /// read-only slice of words.
    pub fn bits(&self) -> (s: &[u64])
        ensures
            s@ == self.words(),
    {
        words_as_slice(&self.layers)
    }

    /// Returns the contained layers, in ascending order.
    ///
    /// The listing is re-derived from the current state on every call.
    pub fn iter(&self) -> (r: Vec<RenderLayer>)
        requires
            self.wf(),
        ensures
            forall|i: int, j: int| 0 <= i < j < r@.len() ==> r@[i].0 < r@[j].0,
            forall|i: int| 0 <= i < r@.len() ==> self.spec_contains(#[trigger] r@[i].0 as nat),
            forall|l: nat|
                #[trigger] self.spec_contains(l) ==> exists|i: int|
                    0 <= i < r@.len() && r@[i].0 as nat == l,
            r@.map_values(|rl: RenderLayer| rl.0 as nat).to_set() == self.layer_set(),
    {
        let mut out: Vec<RenderLayer> = Vec::new();
        let n = words_len(&self.layers);
        let mut wi: usize = 0;
        while wi < n
            invariant
                self.wf(),
                n == self.words().len(),
                wi <= n,
                forall|i: int, j: int| 0 <= i < j < out@.len() ==> out@[i].0 < out@[j].0,
                forall|i: int| 0 <= i < out@.len() ==> (#[trigger] out@[i].0) < wi * 64,
                forall|i: int|
                    0 <= i < out@.len() ==> self.spec_contains(#[trigger] out@[i].0 as nat),
                forall|l: nat|
                    l < wi * 64 && #[trigger] self.spec_contains(l) ==> exists|i: int|
                        0 <= i < out@.len() && out@[i].0 as nat == l,
            decreases n - wi,
        {
            let w = words_get(&self.layers, wi);
            let mut b: usize = 0;
            while b < 64
                invariant
                    self.wf(),
                    n == self.words().len(),
                    wi < n,
                    w == self.words()[wi as int],
                    b <= 64,
                    forall|i: int, j: int| 0 <= i < j < out@.len() ==> out@[i].0 < out@[j].0,
                    forall|i: int| 0 <= i < out@.len() ==> (#[trigger] out@[i].0) < wi * 64 + b,
                    forall|i: int|
                        0 <= i < out@.len() ==> self.spec_contains(#[trigger] out@[i].0 as nat),
                    forall|l: nat|
                        l < wi * 64 + b && #[trigger] self.spec_contains(l) ==> exists|i: int|
                            0 <= i < out@.len() && out@[i].0 as nat == l,
                decreases 64 - b,
            {
                let ghost out_prev = out@;
                let bit_is_set = (w & (1u64 << (b as u64))) != 0;
                if bit_is_set {
                    out.push(RenderLayer(wi * 64 + b));
                }
                proof {
                    let l0 = (wi * 64 + b) as nat;
                    assert(l0 / 64 == wi && l0 % 64 == b);
                    assert forall|l: nat|
                        l < wi * 64 + b + 1 && #[trigger] self.spec_contains(l) implies exists|
                        i: int,
                    | 0 <= i < out@.len() && out@[i].0 as nat == l by {
                        if l < wi * 64 + b {
                            let i = choose|i: int|
                                0 <= i < out_prev.len() && out_prev[i].0 as nat == l;
                            assert(out@[i].0 as nat == l);
                        } else {
                            assert(l == l0);
                            assert(bit_set(w, b as u64));
                            assert(bit_is_set);
                            assert(out@[out@.len() - 1].0 as nat == l);
                        }
                    }
                }
                b += 1;
            }
            wi += 1;
        }
        proof {
            assert forall|l: nat| self.spec_contains(l) implies l < n * 64 by {
                assert(l / 64 < n);
            }
            let s = out@.map_values(|rl: RenderLayer| rl.0 as nat);
            assert forall|l: nat| s.to_set().contains(l) == self.spec_contains(l) by {
                if s.to_set().contains(l) {
                    let i = choose|i: int| 0 <= i < s.len() && s[i] == l;
                    assert(out@[i].0 as nat == l);
                    assert(self.spec_contains(out@[i].0 as nat));
                } else if self.spec_contains(l) {
                    let i = choose|i: int| 0 <= i < out@.len() && out@[i].0 as nat == l;
                    assert(s[i] == l);
                    assert(s.contains(l));
                    assert(s.to_set().contains(l));
                }
            }
            assert(s.to_set() =~= self.layer_set());
        }
        out
    }

    /// Gets the number of stored layers.
    ///
    /// Equivalent to the length of [`Self::iter`]'s listing: the cardinality
    /// of the layer set.
    pub fn num_layers(&self) -> (n: usize)
        requires
            self.wf(),
        ensures
            self.layer_set().finite(),
            n == self.layer_set().len(),
    {
        let v = self.iter();
        proof {
            broadcast use vstd::seq_lib::seq_to_set_is_finite;

            let s = v@.map_values(|rl: RenderLayer| rl.0 as nat);
            assert forall|i: int, j: int| 0 <= i < j < s.len() implies s[i] != s[j] by {
                assert(v@[i].0 < v@[j].0);
            }
            assert(s.no_duplicates());
            s.unique_seq_to_set();
        }
        v.len()
    }

    /// Makes a new `RenderLayers` holding exactly the given layers.
    ///
    /// Duplicates collapse; the order of the slice does not matter.
    pub fn from_layers(layers: &[RenderLayer]) -> (r: Self)
        ensures
            r.wf(),
            r.minimal_backing(),
            forall|l: nat|
                #[trigger] r.spec_contains(l) <==> exists|i: int|
                    0 <= i < layers@.len() && layers@[i].0 as nat == l,
            r.layer_set() == layers@.map_values(|rl: RenderLayer| rl.0 as nat).to_set(),
    {
        let mut r = Self::empty();
        let n = layers.len();
        let mut i: usize = 0;
        while i < n
            invariant
                r.wf(),
                r.minimal_backing(),
                n == layers@.len(),
                i <= n,
                forall|l: nat|
                    #[trigger] r.spec_contains(l) <==> exists|j: int|
                        0 <= j < i && layers@[j].0 as nat == l,
            decreases n - i,
        {
            let ghost prev = r;
            let layer = *vstd::slice::slice_index_get(layers, i);
            r.add(layer);
            proof {
                assert forall|l: nat| #[trigger] r.spec_contains(l) implies exists|j: int|
                    0 <= j < i + 1 && layers@[j].0 as nat == l by {
                    if l == layer.0 as nat {
                        assert(layers@[i as int].0 as nat == l);
                    } else {
                        assert(r.layer_set().contains(l));
                        assert(prev.layer_set().contains(l));
                        assert(prev.spec_contains(l));
                        let j = choose|j: int| 0 <= j < i && layers@[j].0 as nat == l;
                        assert(0 <= j < i + 1 && layers@[j].0 as nat == l);
                    }
                }
                assert forall|l: nat|
                    (exists|j: int| 0 <= j < i + 1 && layers@[j].0 as nat == l) implies
                    r.spec_contains(l) by {
                    let j = choose|j: int| 0 <= j < i + 1 && layers@[j].0 as nat == l;
                    if j < i {
                        assert(prev.spec_contains(l));
                        assert(prev.layer_set().contains(l));
                        assert(r.layer_set().contains(l));
                    } else {
                        assert(l == layer.0 as nat);
                    }
                }
            }
            i += 1;
        }
        proof {
            let s = layers@.map_values(|rl: RenderLayer| rl.0 as nat);
            assert forall|l: nat| s.to_set().contains(l) == r.spec_contains(l) by {
                if s.to_set().contains(l) {
                    let i = choose|i: int| 0 <= i < s.len() && s[i] == l;
                    assert(layers@[i].0 as nat == l);
                } else if r.spec_contains(l) {
                    let i = choose|i: int| 0 <= i < layers@.len() && layers@[i].0 as nat == l;
                    assert(s[i] == l);
                    assert(s.contains(l));
                    assert(s.to_set().contains(l));
                }
            }
            assert(r.layer_set() =~= s.to_set());
        }
        r
    }
}

impl PartialEq for RenderLayers {
    /// Equality goes by effective bit content, not by backing length.
    ///
    /// Removal never shrinks the backing, so a mask that grew for a high
    /// layer later removed carries trailing all-zero words; such words do
    /// not take part in equality, and two masks holding the same layers
    /// always compare equal.
    fn eq(&self, other: &Self) -> (r: bool) {
        let an = words_len(&self.layers);
        let bn = words_len(&other.layers);
        let m = if an <= bn {
            an
        } else {
            bn
        };
        let mut i: usize = 0;
        while i < m
            invariant
                an == self.words().len(),
                bn == other.words().len(),
                m <= an,
                m <= bn,
                m >= an || m >= bn,
                i <= m,
                forall|j: int| 0 <= j < i ==> self.words()[j] == other.words()[j],
            decreases m - i,
        {
            let w1 = words_get(&self.layers, i);
            let w2 = words_get(&other.layers, i);
            if w1 != w2 {
                proof {
                    let l = lemma_differing_word_differing_layer(
                        self.words(),
                        other.words(),
                        i as int,
                    );
                    assert(self.layer_set().contains(l) != other.layer_set().contains(l));
                }
                return false;
            }
            i += 1;
        }
        if an > bn {
            while i < an
                invariant
                    an == self.words().len(),
                    bn == other.words().len(),
                    bn <= i <= an,
                    forall|j: int| 0 <= j < bn ==> self.words()[j] == other.words()[j],
                    forall|j: int| bn <= j < i ==> self.words()[j] == 0u64,
                decreases an - i,
            {
                let w = words_get(&self.layers, i);
                if w != 0 {
                    proof {
                        let l = lemma_nonzero_word_layer(self.words(), i as int);
                        assert(self.layer_set().contains(l) != other.layer_set().contains(l));
                    }
                    return false;
                }
                i += 1;
            }
        } else {
            while i < bn
                invariant
                    an == self.words().len(),
                    bn == other.words().len(),
                    an <= i <= bn,
                    forall|j: int| 0 <= j < an ==> self.words()[j] == other.words()[j],
                    forall|j: int| an <= j < i ==> other.words()[j] == 0u64,
                decreases bn - i,
            {
                let w = words_get(&other.layers, i);
                if w != 0 {
                    proof {
                        let l = lemma_nonzero_word_layer(other.words(), i as int);
                        assert(self.layer_set().contains(l) != other.layer_set().contains(l));
                    }
                    return false;
                }
                i += 1;
            }
        }
        proof {
            assert forall|l: nat| self.spec_contains(l) == other.spec_contains(l) by {
                let wi = (l / 64) as int;
                let bbit = (l % 64) as u64;
                if !(wi < an && wi < bn) {
                    lemma_zero_bit(bbit);
                }
            }
            assert(self.layer_set() =~= other.layer_set());
        }
        true
    }
}

impl vstd::std_specs::cmp::PartialEqSpecImpl for RenderLayers {
    open spec fn obeys_eq_spec() -> bool {
        true
    }

    open spec fn eq_spec(&self, other: &Self) -> bool {
        self.layer_set() == other.layer_set()
    }
}

impl Clone for RenderLayers {
    /// An exact copy, backing length included.
    fn clone(&self) -> (r: Self)
        ensures
            r.words() == self.words(),
            r.layer_set() == self.layer_set(),
    {
        let r = RenderLayers { layers: words_clone(&self.layers) };
        proof {
            assert(r.layer_set() =~= self.layer_set());
        }
        r
    }
}

impl Default for RenderLayers {
    /// A bitmask holding exactly the default layer ([`DEFAULT_RENDER_LAYER`]).
    fn default() -> (r: Self)
        ensures
            r.wf(),
            r.minimal_backing(),
            r.layer_set() == Set::<nat>::empty().insert(DEFAULT_RENDER_LAYER as nat),
            r.spec_contains(DEFAULT_RENDER_LAYER as nat),
            r.words().len() == 1,
    {
        let mut r = RenderLayers::empty();
        r.add(RenderLayer(DEFAULT_RENDER_LAYER));
        r
    }
}

/// True if the two layer sets share at least one layer.
pub open spec fn sets_intersect(a: Set<nat>, b: Set<nat>) -> bool {
    exists|l: nat| a.contains(l) && b.contains(l)
}

/// The ascending listing of a layer set is canonical: two strictly ascending
/// sequences with the same members are equal.
///
/// Hence the listing [`RenderLayers::iter`] returns is determined by the
/// layer set alone: building a bitmask from layers in any order (see
/// [`RenderLayers::from_layers`]) and listing it yields the one ascending
/// sequence of the distinct layers given.
pub proof fn lemma_ascending_listing_unique(s1: Seq<nat>, s2: Seq<nat>)
    requires
        forall|i: int, j: int| 0 <= i < j < s1.len() ==> s1[i] < s1[j],
        forall|i: int, j: int| 0 <= i < j < s2.len() ==> s2[i] < s2[j],
        forall|l: nat| s1.contains(l) == s2.contains(l),
    ensures
        s1 == s2,
    decreases s1.len(),
{
    if s1.len() == 0 {
        if s2.len() > 0 {
            assert(s2.contains(s2[0]));
            assert(s1.contains(s2[0]));
        }
        assert(s1 =~= s2);
    } else {
        if s2.len() == 0 {
            assert(s1.contains(s1[0]));
            assert(s2.contains(s1[0]));
        }
        assert(s1.contains(s1[0]));
        assert(s2.contains(s1[0]));
        let k2 = choose|k: int| 0 <= k < s2.len() && s2[k] == s1[0];
        assert(k2 == 0 || s2[0] < s2[k2]);
        assert(s2.contains(s2[0]));
        assert(s1.contains(s2[0]));
        let k1 = choose|k: int| 0 <= k < s1.len() && s1[k] == s2[0];
        assert(k1 == 0 || s1[0] < s1[k1]);
        assert(s1[0] == s2[0]);
        let t1 = s1.subrange(1, s1.len() as int);
        let t2 = s2.subrange(1, s2.len() as int);
        assert forall|l: nat| t1.contains(l) == t2.contains(l) by {
            if t1.contains(l) {
                let i = choose|i: int| 0 <= i < t1.len() && t1[i] == l;
                assert(s1[i + 1] == l);
                assert(s1[0] < s1[i + 1]);
                assert(s1.contains(l));
                assert(s2.contains(l));
                let j = choose|j: int| 0 <= j < s2.len() && s2[j] == l;
                assert(j != 0);
                assert(t2[j - 1] == l);
                assert(t2.contains(l));
            }
            if t2.contains(l) {
                let i = choose|i: int| 0 <= i < t2.len() && t2[i] == l;
                assert(s2[i + 1] == l);
                assert(s2[0] < s2[i + 1]);
                assert(s2.contains(l));
                assert(s1.contains(l));
                let j = choose|j: int| 0 <= j < s1.len() && s1[j] == l;
                assert(j != 0);
                assert(t1[j - 1] == l);
                assert(t1.contains(l));
            }
        }
        lemma_ascending_listing_unique(t1, t2);
        assert(s1.len() == s2.len());
        assert forall|i: int| 0 <= i < s1.len() implies s1[i] == s2[i] by {
            if i > 0 {
                assert(t1[i - 1] == s1[i]);
                assert(t2[i - 1] == s2[i]);
            }
        }
        assert(s1 =~= s2);
    }
}

/// Two bitmasks holding the same layers, neither with a trailing all-zero
/// word (see [`RenderLayers::minimal_backing`]), have identical backing
/// words.
///
/// Hence a mask built from a listing in one step
/// ([`RenderLayers::from_layers`]) and one built by adding the same layers
/// one at a time are the same value: the construction order cannot be
/// observed, neither through `==` nor through [`RenderLayers::bits`].
pub proof fn lemma_canonical_words_unique(a: RenderLayers, b: RenderLayers)
    requires
        a.layer_set() == b.layer_set(),
        a.minimal_backing(),
        b.minimal_backing(),
    ensures
        a.words() == b.words(),
{
    if a.words().len() > b.words().len() {
        let l = choose|l: nat| a.spec_contains(l) && l / 64 + 1 == a.words().len();
        assert(b.layer_set().contains(l));
        assert(b.spec_contains(l));
        assert(l / 64 < b.words().len());
        assert(false);
    }
    if b.words().len() > a.words().len() {
        let l = choose|l: nat| b.spec_contains(l) && l / 64 + 1 == b.words().len();
        assert(a.layer_set().contains(l));
        assert(a.spec_contains(l));
        assert(l / 64 < a.words().len());
        assert(false);
    }
    assert forall|j: int| 0 <= j < a.words().len() implies a.words()[j] == b.words()[j] by {
        assert forall|k: u64| k < 64 implies (bit_set(a.words()[j], k) == bit_set(
            b.words()[j],
            k,
        )) by {
            let l = (j * 64 + k) as nat;
            assert(l / 64 == j && l % 64 == k);
            assert(a.layer_set().contains(l) == b.layer_set().contains(l));
            assert(a.layer_set().contains(l) == a.spec_contains(l));
            assert(b.layer_set().contains(l) == b.spec_contains(l));
            assert(a.spec_contains(l) == b.spec_contains(l));
        }
        lemma_word_eq_by_bits(a.words()[j], b.words()[j]);
    }
    assert(a.words() =~= b.words());
}

/// Layer-set intersection is symmetric: whether two bitmasks intersect does
/// not depend on the order in which they are compared.
pub proof fn lemma_intersects_symmetric(a: RenderLayers, b: RenderLayers)
    ensures
        sets_intersect(a.layer_set(), b.layer_set()) == sets_intersect(
            b.layer_set(),
            a.layer_set(),
        ),
{
    if sets_intersect(a.layer_set(), b.layer_set()) {
        let l = choose|l: nat| a.layer_set().contains(l) && b.layer_set().contains(l);
        assert(b.layer_set().contains(l) && a.layer_set().contains(l));
    }
    if sets_intersect(b.layer_set(), a.layer_set()) {
        let l = choose|l: nat| b.layer_set().contains(l) && a.layer_set().contains(l);
        assert(a.layer_set().contains(l) && b.layer_set().contains(l));
    }
}

} // verus!
