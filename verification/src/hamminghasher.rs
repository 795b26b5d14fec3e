//! The bit-sampling hasher: one bucket key from the bytes of a string at
//! sampled positions.

use crate::digest::{fx_words, fx_words_digest};
use crate::random::draw_index;
use rand::rngs::StdRng;
use vstd::prelude::*;
use vstd::string::StringSliceAdditionalSpecFns;

verus! {

/// The bytes found at the sampled positions, in sampling order, each as a
/// word. A position at or past the end of `bytes` contributes nothing.
pub open spec fn sampled_bytes(indexes: Seq<usize>, bytes: Seq<u8>) -> Seq<u64> {
    indexes.filter(|i: usize| i < bytes.len()).map_values(|i: usize| bytes[i as int] as u64)
}

/// The bucket key of a byte string: the digest of its length followed by its
/// sampled bytes. The length is part of the key, so that strings of
/// different lengths do not meet merely because no sampled position reaches
/// into either.
pub open spec fn hamming_key(indexes: Seq<usize>, bytes: Seq<u8>) -> u64 {
    fx_words_digest(seq![bytes.len() as u64] + sampled_bytes(indexes, bytes))
}

/// Two strings of one length that agree at every sampled position within
/// that length have the same key.
pub proof fn agreeing_samples_share_a_key(indexes: Seq<usize>, a: Seq<u8>, b: Seq<u8>)
    requires
        a.len() == b.len(),
        forall|k: int|
            0 <= k < indexes.len() && indexes[k] < a.len() ==> a[(#[trigger] indexes[k]) as int]
                == b[indexes[k] as int],
    ensures
        hamming_key(indexes, a) == hamming_key(indexes, b),
{
    lemma_agreeing_samples(indexes, a, b);
}

/// The sampled bytes of two strings of one length that agree at every
/// sampled position within that length are the same.
proof fn lemma_agreeing_samples(indexes: Seq<usize>, a: Seq<u8>, b: Seq<u8>)
    requires
        a.len() == b.len(),
        forall|k: int|
            0 <= k < indexes.len() && indexes[k] < a.len() ==> a[(#[trigger] indexes[k]) as int]
                == b[indexes[k] as int],
    ensures
        sampled_bytes(indexes, a) == sampled_bytes(indexes, b),
    decreases indexes.len(),
{
    let in_a = |i: usize| i < a.len();
    let in_b = |i: usize| i < b.len();
    let at_a = |i: usize| a[i as int] as u64;
    let at_b = |i: usize| b[i as int] as u64;
    if indexes.len() == 0 {
        assert(indexes.filter(in_a) =~= Seq::<usize>::empty()) by {
            reveal(Seq::filter);
        }
        assert(indexes.filter(in_b) =~= Seq::<usize>::empty()) by {
            reveal(Seq::filter);
        }
        assert(sampled_bytes(indexes, a) =~= sampled_bytes(indexes, b));
    } else {
        let rest = indexes.drop_last();
        let last = indexes.last();
        assert forall|k: int| 0 <= k < rest.len() && rest[k] < a.len() implies a[(
        #[trigger] rest[k]) as int] == b[rest[k] as int] by {
            assert(rest[k] == indexes[k]);
        }
        lemma_agreeing_samples(rest, a, b);
        assert(indexes =~= rest.push(last));
        rest.lemma_filter_push(last, in_a);
        rest.lemma_filter_push(last, in_b);
        rest.filter(in_a).lemma_push_map_commute(at_a, last);
        rest.filter(in_b).lemma_push_map_commute(at_b, last);
        if last < a.len() {
            assert(indexes[indexes.len() - 1] == last);
            assert(at_a(last) == at_b(last));
        }
    }
}

/// A bit-sampling hasher with the positions of one band.
#[derive(Debug)]
pub struct HammingHasher {
    indexes: Vec<usize>,
}

impl View for HammingHasher {
    type V = Seq<usize>;

    /// The sampled positions, in sampling order.
    closed spec fn view(&self) -> Seq<usize> {
        self.indexes@
    }
}

impl HammingHasher {
    /// A hasher with `band_width` positions drawn below `max_input_len`,
    /// repeats allowed. There is no position to draw below zero.
    pub fn new(max_input_len: usize, band_width: usize, rng: &mut StdRng) -> (hasher: Self)
        requires
            band_width > 0 ==> max_input_len > 0,
        ensures
            hasher@.len() == band_width,
            forall|i: int| 0 <= i < hasher@.len() ==> hasher@[i] < max_input_len,
    {
        let mut indexes: Vec<usize> = Vec::new();
        let mut i: usize = 0;
        while i < band_width
            invariant
                band_width > 0 ==> max_input_len > 0,
                i <= band_width,
                indexes@.len() == i,
                forall|j: int| 0 <= j < indexes@.len() ==> indexes@[j] < max_input_len,
            decreases band_width - i,
        {
            let index = draw_index(rng, max_input_len);
            indexes.push(index);
            i += 1;
        }
        Self { indexes }
    }

    /// A hasher with the given positions.
    pub fn from_indexes(indexes: Vec<usize>) -> (hasher: Self)
        ensures
            hasher@ == indexes@,
    {
        Self { indexes }
    }

    /// The sampled positions, in sampling order.
    pub fn indexes(&self) -> (indexes: &Vec<usize>)
        ensures
            indexes@ == self@,
    {
        &self.indexes
    }

    /// The bucket key of a string in this hasher's band.
    pub fn hash(&self, x: &str) -> (key: u64)
        ensures
            key == hamming_key(self@, x.spec_bytes()),
    {
        let bytes = x.as_bytes();
        let input_len = bytes.len();
        let mut message: Vec<u64> = Vec::new();
        message.push(input_len as u64);
        let ghost in_range = |i: usize| i < bytes@.len();
        let ghost byte_at = |i: usize| bytes@[i as int] as u64;
        let ghost head = seq![bytes@.len() as u64];
        let mut k: usize = 0;
        proof {
            assert(self.indexes@.take(0).filter(in_range) =~= Seq::<usize>::empty()) by {
                reveal(Seq::filter);
            }
            assert(message@ =~= head + self.indexes@.take(0).filter(in_range).map_values(byte_at));
        }
        while k < self.indexes.len()
            invariant
                k <= self.indexes.len(),
                input_len == bytes@.len(),
                in_range == |i: usize| i < bytes@.len(),
                byte_at == |i: usize| bytes@[i as int] as u64,
                head == seq![bytes@.len() as u64],
                message@ == head + self.indexes@.take(k as int).filter(in_range).map_values(
                    byte_at,
                ),
            decreases self.indexes.len() - k,
        {
            let idx = self.indexes[k];
            let ghost picked = self.indexes@.take(k as int).filter(in_range).map_values(byte_at);
            proof {
                let seen = self.indexes@.take(k as int);
                self.indexes@.lemma_take_succ_push(k as int);
                seen.lemma_filter_push(idx, in_range);
                seen.filter(in_range).lemma_push_map_commute(byte_at, idx);
            }
            if idx < input_len {
                message.push(bytes[idx] as u64);
                proof {
                    assert(message@ =~= head + picked.push(byte_at(idx)));
                }
            }
            k += 1;
        }
        proof {
            self.indexes@.lemma_take_len();
        }
        fx_words(message.as_slice())
    }
}

} // verus!
