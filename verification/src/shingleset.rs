//! Fingerprint sets: a record's character n-grams, each reduced to 32 bits.

use crate::digest::{fx_chars, fx_chars_digest, fx_salted_chars, fx_salted_chars_digest};
use crate::ratio::Ratio;
use std::collections::HashSet;
use vstd::prelude::*;
use vstd::set_lib::{
    lemma_int_range, lemma_len_subset, lemma_map_size, lemma_set_intersect_union_lens,
    set_int_range,
};
use vstd::seq_lib::seq_to_set_is_finite;
use vstd::std_specs::iter::IteratorSpec;
use vstd::slice::slice_subrange;

verus! {

broadcast use vstd::std_specs::hash::group_hash_axioms;

/// The fingerprint of one window: the low 32 bits of its digest, the salt
/// mixed in first where there is one.
pub open spec fn fingerprint(salt: Option<Seq<char>>, window: Seq<char>) -> u32 {
    match salt {
        Some(s) => fx_salted_chars_digest(s, window) as u32,
        None => fx_chars_digest(window) as u32,
    }
}

/// The fingerprints of all windows of `width` consecutive characters.
pub open spec fn fingerprints(chars: Seq<char>, width: nat, salt: Option<Seq<char>>) -> Set<u32> {
    Set::new(
        |f: u32|
            exists|start: int|
                0 <= start && start + width <= chars.len() && f == #[trigger] fingerprint(
                    salt,
                    chars.subrange(start, start + width),
                ),
    )
}

/// The same, for the windows that start before `limit`.
pub open spec fn fingerprints_before(
    chars: Seq<char>,
    width: nat,
    salt: Option<Seq<char>>,
    limit: int,
) -> Set<u32> {
    Set::new(
        |f: u32|
            exists|start: int|
                0 <= start < limit && start + width <= chars.len() && f == #[trigger] fingerprint(
                    salt,
                    chars.subrange(start, start + width),
                ),
    )
}

/// The Jaccard similarity of two fingerprint sets: how many fingerprints they
/// share, out of how many they hold between them.
pub open spec fn jaccard(a: Set<u32>, b: Set<u32>) -> Ratio {
    Ratio { num: a.intersect(b).len() as u64, den: a.union(b).len() as u64 }
}

/// A finite set of fingerprints has at most as many members as there are
/// 32-bit values.
pub proof fn lemma_fingerprint_count(s: Set<u32>)
    requires
        s.finite(),
    ensures
        s.len() <= 0x1_0000_0000,
{
    let widen = |x: u32| x as int;
    let image = s.map(widen);
    let all = set_int_range(0, 0x1_0000_0000);
    assert(vstd::relations::injective_on(widen, s));
    lemma_map_size(s, image, widen);
    lemma_int_range(0, 0x1_0000_0000);
    assert(image.subset_of(all));
    lemma_len_subset(image, all);
}

/// Similarity does not depend on the order of the two sets.
pub proof fn jaccard_is_symmetric(a: Set<u32>, b: Set<u32>)
    ensures
        jaccard(a, b) == jaccard(b, a),
{
    assert(a.intersect(b) =~= b.intersect(a));
    assert(a.union(b) =~= b.union(a));
}

/// A set that is not empty has similarity one with itself.
pub proof fn jaccard_of_self_is_one(a: Set<u32>)
    requires
        a.finite(),
        a.len() > 0,
    ensures
        jaccard(a, a).is_one(),
{
    assert(a.intersect(a) =~= a);
    assert(a.union(a) =~= a);
    lemma_fingerprint_count(a);
}

/// The empty set has similarity zero with every set, itself included.
pub proof fn jaccard_with_empty_is_zero(a: Set<u32>)
    requires
        a.finite(),
    ensures
        jaccard(Set::<u32>::empty(), a).is_zero(),
        jaccard(a, Set::<u32>::empty()).is_zero(),
{
    assert(Set::<u32>::empty().intersect(a) =~= Set::<u32>::empty());
    assert(a.intersect(Set::<u32>::empty()) =~= Set::<u32>::empty());
}

/// The view of an optional salt.
pub open spec fn salt_view(salt: Option<&str>) -> Option<Seq<char>> {
    match salt {
        Some(s) => Some(s@),
        None => None,
    }
}

/// The characters of each string.
pub open spec fn texts(strings: Seq<&str>) -> Seq<Seq<char>> {
    strings.map_values(|s: &str| s@)
}

/// The characters of each owned string.
pub open spec fn owned_texts(strings: Seq<String>) -> Seq<Seq<char>> {
    strings.map_values(|s: String| s@)
}

/// The unsalted fingerprint set of each record.
pub open spec fn plain_sets(records: Seq<Seq<char>>, width: usize) -> Seq<Set<u32>> {
    Seq::new(records.len(), |i: int| fingerprints(records[i], width as nat, None))
}

/// The fingerprint set of each record that has a salt, salted with it.
pub open spec fn salted_sets(records: Seq<Seq<char>>, salts: Seq<Seq<char>>, width: usize) -> Seq<
    Set<u32>,
> {
    Seq::new(
        if records.len() <= salts.len() {
            records.len()
        } else {
            salts.len()
        },
        |i: int| fingerprints(records[i], width as nat, Some(salts[i])),
    )
}

/// The fingerprints of each set.
pub open spec fn sets_of(sets: Seq<ShingleSet>) -> Seq<Set<u32>> {
    sets.map_values(|set: ShingleSet| set.shingles@)
}

/// Whether each set was made with the given width and has its place as its
/// index.
pub open spec fn numbered(sets: Seq<ShingleSet>, width: usize) -> bool {
    forall|i: int|
        0 <= i < sets.len() ==> (#[trigger] sets[i]).shingle_len == width && sets[i].index == i
}

/// The characters of a string, in order.
fn collect_chars(string: &str) -> (chars: Vec<char>)
    ensures
        chars@ == string@,
{
    let mut chars: Vec<char> = Vec::new();
    for c in it: string.chars()
        invariant
            it.seq() == string@,
            chars@ == it.seq().take(it.index()),
    {
        chars.push(c);
    }
    chars
}

/// One record's fingerprint set, with the record's place in its collection.
#[derive(Debug)]
pub struct ShingleSet {
    pub shingles: HashSet<u32>,
    pub shingle_len: usize,
    pub index: usize,
}

/// The members of a set, each once, in the order in which the set hands
/// them out.
pub(crate) fn members(set: &HashSet<u32>) -> (items: Vec<u32>)
    ensures
        items@.no_duplicates(),
        items@.to_set() == set@,
        items@.len() == set@.len(),
        set@.finite(),
{
    let mut items: Vec<u32> = Vec::new();
    let ghost all = set.iter().remaining().unref();
    for item in it: set.iter()
        invariant
            it.seq().unref() == all,
            it.seq().len() == all.len(),
            items@ == all.take(it.index()),
    {
        proof {
            all.lemma_take_succ_push(it.index());
        }
        items.push(*item);
    }
    proof {
        all.lemma_take_len();
        seq_to_set_is_finite(all);
    }
    items
}

impl Clone for ShingleSet {
    /// A copy with the same fingerprints, width and index.
    fn clone(&self) -> (copy: Self)
        ensures
            copy.shingles@ == self.shingles@,
            copy.shingle_len == self.shingle_len,
            copy.index == self.index,
    {
        let items = members(&self.shingles);
        let mut shingles: HashSet<u32> = HashSet::new();
        let mut i: usize = 0;
        while i < items.len()
            invariant
                i <= items.len(),
                shingles@ == items@.take(i as int).to_set(),
            decreases items.len() - i,
        {
            proof {
                items@.lemma_take_succ_push(i as int);
                items@.take(i as int).lemma_push_to_set_commute(items@[i as int]);
            }
            shingles.insert(items[i]);
            i += 1;
        }
        proof {
            items@.lemma_take_len();
        }
        Self { shingles, shingle_len: self.shingle_len, index: self.index }
    }
}

impl ShingleSet {
    /// Builds the fingerprint set of `string` from its windows of
    /// `shingle_len` characters.
    pub fn new(string: &str, shingle_len: usize, index: usize, salt: Option<&str>) -> (set: Self)
        requires
            shingle_len > 0,
        ensures
            set.shingles@ == fingerprints(string@, shingle_len as nat, salt_view(salt)),
            set.shingles@.finite(),
            set.shingle_len == shingle_len,
            set.index == index,
            shingle_len > string@.len() ==> set.shingles@ == Set::<u32>::empty(),
    {
        let mut out_set: HashSet<u32> = HashSet::new();
        let char_vec = collect_chars(string);
        let n = char_vec.len();
        let ghost salt_seq = salt_view(salt);
        if shingle_len <= n {
            let last = n - shingle_len;
            let mut start: usize = 0;
            while start <= last
                invariant
                    shingle_len > 0,
                    n == char_vec@.len(),
                    shingle_len <= n,
                    last == n - shingle_len,
                    start <= last + 1,
                    salt_seq == salt_view(salt),
                    out_set@ == fingerprints_before(
                        char_vec@,
                        shingle_len as nat,
                        salt_seq,
                        start as int,
                    ),
                decreases last + 1 - start,
            {
                let window = slice_subrange(char_vec.as_slice(), start, start + shingle_len);
                let digest = match salt {
                    Some(salt_str) => fx_salted_chars(salt_str, window),
                    None => fx_chars(window),
                };
                let result: u32 = #[verifier::truncate] (digest as u32);
                assert(result == fingerprint(
                    salt_seq,
                    char_vec@.subrange(start as int, start + shingle_len),
                ));
                out_set.insert(result);
                assert(out_set@ == fingerprints_before(
                    char_vec@,
                    shingle_len as nat,
                    salt_seq,
                    start + 1,
                ));
                start += 1;
            }
            assert(out_set@ == fingerprints(char_vec@, shingle_len as nat, salt_seq));
        } else {
            assert(out_set@ == fingerprints(char_vec@, shingle_len as nat, salt_seq));
        }
        proof {
            seq_to_set_is_finite(out_set.iter().remaining().unref());
        }
        Self { shingles: out_set, shingle_len, index }
    }

    /// The Jaccard similarity of the two sets as an exact fraction, zero
    /// where either set is empty.
    pub fn jaccard_similarity(&self, b: &Self) -> (sim: Ratio)
        ensures
            sim == jaccard(self.shingles@, b.shingles@),
            self.shingles@.finite(),
            b.shingles@.finite(),
            sim.num <= sim.den,
            self.shingles@.len() == 0 || b.shingles@.len() == 0 ==> sim.is_zero(),
    {
        let ghost mine = self.shingles@;
        let ghost theirs = b.shingles@;
        let ghost all = self.shingles.iter().remaining().unref();
        let mut shared: u64 = 0;
        proof {
            seq_to_set_is_finite(all);
            seq_to_set_is_finite(b.shingles.iter().remaining().unref());
            lemma_fingerprint_count(mine);
            assert(all.take(0).to_set().intersect(theirs) =~= Set::<u32>::empty());
        }
        for item in it: self.shingles.iter()
            invariant
                it.seq().unref() == all,
                it.seq().len() == all.len(),
                all.no_duplicates(),
                all.to_set() == mine,
                all.len() == mine.len(),
                mine.len() <= 0x1_0000_0000,
                theirs == b.shingles@,
                theirs.finite(),
                shared <= it.index(),
                shared == all.take(it.index()).to_set().intersect(theirs).len(),
        {
            let ghost k = it.index();
            let ghost seen = all.take(k).to_set();
            proof {
                all.lemma_take_succ_push(k);
                all.take(k).lemma_push_to_set_commute(all[k]);
                seq_to_set_is_finite(all.take(k));
                assert(!seen.contains(all[k])) by {
                    if seen.contains(all[k]) {
                        let j = choose|j: int| 0 <= j < k && all.take(k)[j] == all[k];
                        assert(all[j] == all[k]);
                    }
                }
                assert(seen.intersect(theirs).finite());
            }
            if b.shingles.contains(item) {
                proof {
                    assert(seen.insert(all[k]).intersect(theirs) =~= seen.intersect(theirs).insert(
                        all[k],
                    ));
                }
                shared += 1;
            } else {
                proof {
                    assert(seen.insert(all[k]).intersect(theirs) =~= seen.intersect(theirs));
                }
            }
        }
        proof {
            all.lemma_take_len();
            lemma_set_intersect_union_lens(mine, theirs);
            lemma_fingerprint_count(mine);
            lemma_fingerprint_count(theirs);
            assert(mine.union(theirs).finite());
            lemma_fingerprint_count(mine.union(theirs));
            assert(mine.intersect(theirs).subset_of(mine.union(theirs)));
            lemma_len_subset(mine.intersect(theirs), mine.union(theirs));
            vstd::set_lib::lemma_len_intersect(mine, theirs);
            vstd::set_lib::lemma_len_intersect(theirs, mine);
            assert(theirs.intersect(mine) =~= mine.intersect(theirs));
            assert(self.shingles.len() == mine.len());
            assert(b.shingles.len() == theirs.len());
        }
        let total: u64 = self.shingles.len() as u64 + b.shingles.len() as u64 - shared;
        Ratio::new(shared, total)
    }
}

} // verus!
