//! One band of a blocking join: the build side fills a bucket map by hash key,
//! the probe side looks its keys up, and each candidate that the lookup turns
//! up is accepted only if it passes the exact check.

use crate::concurrent::{
    buckets_add, buckets_clear, buckets_get, buckets_of, extended, no_buckets, pairs_contains,
    pairs_insert, pairs_of,
};
use dashmap::DashMap;
use dashmap::DashSet;
use vstd::prelude::*;

verus! {

/// Whether the pair names a probe record and a build record, in this order,
/// that have the same key.
pub open spec fn collide(build_keys: Seq<u64>, probe_keys: Seq<u64>, pair: (usize, usize)) -> bool {
    &&& pair.0 < probe_keys.len()
    &&& pair.1 < build_keys.len()
    &&& probe_keys[pair.0 as int] == build_keys[pair.1 as int]
}

/// Whether the buckets hold exactly the first `filled` build records, each
/// under its own key.
pub(crate) open spec fn holds_prefix(
    buckets: Map<u64, Seq<usize>>,
    build_keys: Seq<u64>,
    filled: int,
) -> bool {
    &&& forall|key: u64, t: int|
        buckets.dom().contains(key) && 0 <= t < buckets[key].len() ==> {
            let i = #[trigger] buckets[key][t];
            i < filled && build_keys[i as int] == key
        }
    &&& forall|i: int|
        0 <= i < filled ==> {
            let key = #[trigger] build_keys[i];
            buckets.dom().contains(key) && buckets[key].contains(i as usize)
        }
}

/// Puts every build record into the bucket of its key.
pub(crate) fn fill_buckets(store: &mut DashMap<u64, Vec<usize>>, build_keys: &Vec<u64>)
    requires
        buckets_of(*old(store)) == no_buckets(),
    ensures
        holds_prefix(buckets_of(*final(store)), build_keys@, build_keys@.len() as int),
{
    let mut i: usize = 0;
    while i < build_keys.len()
        invariant
            i <= build_keys.len(),
            holds_prefix(buckets_of(*store), build_keys@, i as int),
        decreases build_keys.len() - i,
    {
        let ghost before = buckets_of(*store);
        let key = build_keys[i];
        buckets_add(store, key, i);
        proof {
            let after = buckets_of(*store);
            let grown = extended(before, key, i);
            assert(after == before.insert(key, grown));
            assert(grown[grown.len() - 1] == i);
            assert forall|other: u64, t: int|
                after.dom().contains(other) && 0 <= t < after[other].len() implies {
                let member = #[trigger] after[other][t];
                member < i + 1 && build_keys@[member as int] == other
            } by {
                if other == key {
                    if before.dom().contains(key) && t < before[key].len() {
                        assert(grown[t] == before[key][t]);
                    }
                } else {
                    assert(after[other] == before[other]);
                }
            }
            assert forall|j: int| 0 <= j < i + 1 implies {
                let other = #[trigger] build_keys@[j];
                after.dom().contains(other) && after[other].contains(j as usize)
            } by {
                let other = build_keys@[j];
                if j == i {
                    assert(grown[grown.len() - 1] == j as usize);
                } else if other == key {
                    let t = choose|t: int| 0 <= t < before[key].len() && before[key][t] == j as usize;
                    assert(grown[t] == j as usize);
                } else {
                    assert(after[other] == before[other]);
                }
            }
        }
        i += 1;
    }
}

/// Lists, for one probe record, the build records in the bucket of its key
/// that are not yet paired with it: each goes to the end of `candidates` as
/// `(probe index, build index)`.
pub(crate) fn gather_row(
    pairs: &DashSet<(usize, usize)>,
    store: &DashMap<u64, Vec<usize>>,
    key: u64,
    row: usize,
    candidates: &mut Vec<(usize, usize)>,
)
    ensures
        old(candidates)@.is_prefix_of(final(candidates)@),
        forall|k: int|
            old(candidates)@.len() <= k < final(candidates)@.len() ==> {
                let pair = #[trigger] final(candidates)@[k];
                &&& pair.0 == row
                &&& buckets_of(*store).dom().contains(key)
                &&& buckets_of(*store)[key].contains(pair.1)
            },
        forall|i: usize|
            buckets_of(*store).dom().contains(key) && buckets_of(*store)[key].contains(i) ==> {
                ||| pairs_of(*pairs).contains((row, i))
                ||| #[trigger] final(candidates)@.contains((row, i))
            },
{
    let ghost start = candidates@;
    match buckets_get(store, key) {
        Some(bucket) => {
            let mut t: usize = 0;
            while t < bucket.len()
                invariant
                    t <= bucket.len(),
                    buckets_of(*store).dom().contains(key),
                    bucket@ == buckets_of(*store)[key],
                    start.is_prefix_of(candidates@),
                    forall|k: int|
                        start.len() <= k < candidates@.len() ==> {
                            let pair = #[trigger] candidates@[k];
                            pair.0 == row && bucket@.contains(pair.1)
                        },
                    forall|i: usize|
                        bucket@.take(t as int).contains(i) ==> {
                            ||| pairs_of(*pairs).contains((row, i))
                            ||| #[trigger] candidates@.contains((row, i))
                        },
                decreases bucket.len() - t,
            {
                let i = bucket[t];
                let ghost before = candidates@;
                if !pairs_contains(pairs, (row, i)) {
                    candidates.push((row, i));
                    proof {
                        assert(candidates@[before.len() as int] == (row, i));
                    }
                }
                proof {
                    lemma_take_next(bucket@, t as int);
                    assert(bucket@[t as int] == i);
                    assert forall|other: usize| bucket@.take(t + 1).contains(other) implies {
                        ||| pairs_of(*pairs).contains((row, other))
                        ||| #[trigger] candidates@.contains((row, other))
                    } by {
                        if other != i && !pairs_of(*pairs).contains((row, other)) {
                            assert(before.contains((row, other)));
                            let k = choose|k: int|
                                0 <= k < before.len() && before[k] == (row, other);
                            assert(candidates@[k] == (row, other));
                        }
                    }
                }
                t += 1;
            }
            proof {
                assert(bucket@.take(t as int) == bucket@);
            }
        },
        None => {},
    }
}

/// Whether the probe has dealt with the pair: its probe record comes before
/// `row`, or is `row` and its build record is among `tried`.
spec fn probed(pair: (usize, usize), row: int, tried: Seq<usize>) -> bool {
    pair.0 < row || (pair.0 == row && tried.contains(pair.1))
}

/// Runs one band. The build records are grouped by key in `store`; each probe
/// record is then held against the build records of its own key. A pair of
/// the form `(probe index, build index)` that is not yet among `pairs` goes to
/// `verify`, and joins `pairs` if `verify` accepts it. `store` is emptied
/// before and after.
pub fn band_join<F: Fn(usize, usize) -> bool>(
    pairs: &mut DashSet<(usize, usize)>,
    store: &mut DashMap<u64, Vec<usize>>,
    build_keys: &Vec<u64>,
    probe_keys: &Vec<u64>,
    verify: F,
)
    requires
        forall|j: usize, i: usize|
            j < probe_keys@.len() && i < build_keys@.len() ==> call_requires(verify, (j, i)),
    ensures
        buckets_of(*final(store)) == no_buckets(),
        forall|p: (usize, usize)|
            pairs_of(*old(pairs)).contains(p) ==> #[trigger] pairs_of(*final(pairs)).contains(p),
        forall|p: (usize, usize)|
            #[trigger] pairs_of(*final(pairs)).contains(p) && !pairs_of(*old(pairs)).contains(p)
                ==> collide(build_keys@, probe_keys@, p) && call_ensures(verify, p, true),
        forall|p: (usize, usize)|
            collide(build_keys@, probe_keys@, p) && !(#[trigger] pairs_of(*final(pairs)).contains(
                p,
            )) ==> call_ensures(verify, p, false),
{
    buckets_clear(store);
    fill_buckets(store, build_keys);
    let ghost start = pairs_of(*pairs);
    let ghost buckets = buckets_of(*store);
    let mut j: usize = 0;
    while j < probe_keys.len()
        invariant
            j <= probe_keys.len(),
            buckets == buckets_of(*store),
            holds_prefix(buckets, build_keys@, build_keys@.len() as int),
            forall|j: usize, i: usize|
                j < probe_keys@.len() && i < build_keys@.len() ==> call_requires(verify, (j, i)),
            forall|p: (usize, usize)| start.contains(p) ==> #[trigger] pairs_of(*pairs).contains(p),
            forall|p: (usize, usize)|
                #[trigger] pairs_of(*pairs).contains(p) && !start.contains(p) ==> collide(
                    build_keys@,
                    probe_keys@,
                    p,
                ) && call_ensures(verify, p, true),
            forall|p: (usize, usize)|
                collide(build_keys@, probe_keys@, p) && p.0 < j && !(#[trigger] pairs_of(
                    *pairs,
                ).contains(p)) ==> call_ensures(verify, p, false),
        decreases probe_keys.len() - j,
    {
        let key = probe_keys[j];
        match buckets_get(store, key) {
            Some(bucket) => {
                let mut t: usize = 0;
                while t < bucket.len()
                    invariant
                        j < probe_keys.len(),
                        t <= bucket.len(),
                        key == probe_keys@[j as int],
                        buckets == buckets_of(*store),
                        buckets.dom().contains(key),
                        bucket@ == buckets[key],
                        holds_prefix(buckets, build_keys@, build_keys@.len() as int),
                        forall|j: usize, i: usize|
                            j < probe_keys@.len() && i < build_keys@.len() ==> call_requires(
                                verify,
                                (j, i),
                            ),
                        forall|p: (usize, usize)|
                            start.contains(p) ==> #[trigger] pairs_of(*pairs).contains(p),
                        forall|p: (usize, usize)|
                            #[trigger] pairs_of(*pairs).contains(p) && !start.contains(p)
                                ==> collide(build_keys@, probe_keys@, p) && call_ensures(
                                verify,
                                p,
                                true,
                            ),
                        forall|p: (usize, usize)|
                            collide(build_keys@, probe_keys@, p) && probed(
                                p,
                                j as int,
                                bucket@.take(t as int),
                            ) && !(#[trigger] pairs_of(*pairs).contains(p)) ==> call_ensures(
                                verify,
                                p,
                                false,
                            ),
                    decreases bucket.len() - t,
                {
                    let i = bucket[t];
                    let ghost seen = pairs_of(*pairs);
                    assert(buckets[key][t as int] == i);
                    assert(i < build_keys@.len() && build_keys@[i as int] == key);
                    let mut rejected = false;
                    if !pairs_contains(pairs, (j, i)) {
                        if verify(j, i) {
                            pairs_insert(pairs, (j, i));
                        } else {
                            rejected = true;
                        }
                    }
                    proof {
                        lemma_take_next(bucket@, t as int);
                        assert forall|p: (usize, usize)|
                            collide(build_keys@, probe_keys@, p) && probed(
                                p,
                                j as int,
                                bucket@.take(t + 1),
                            ) && !(#[trigger] pairs_of(*pairs).contains(p)) implies call_ensures(
                            verify,
                            p,
                            false,
                        ) by {
                            assert(!seen.contains(p));
                            if p.0 == j && p.1 == i {
                                assert(p == (j, i));
                                assert(rejected);
                            } else {
                                assert(probed(p, j as int, bucket@.take(t as int)));
                            }
                        }
                    }
                    t += 1;
                }
                proof {
                    assert(bucket@.take(t as int) == bucket@);
                    assert forall|p: (usize, usize)|
                        collide(build_keys@, probe_keys@, p) && p.0 < j + 1 && !(
                        #[trigger] pairs_of(*pairs).contains(p)) implies call_ensures(
                        verify,
                        p,
                        false,
                    ) by {
                        if p.0 == j {
                            assert(build_keys@[p.1 as int] == key);
                            assert(buckets[key].contains(p.1));
                            assert(probed(p, j as int, bucket@));
                        } else {
                            assert(probed(p, j as int, bucket@));
                        }
                    }
                }
            },
            None => {
                proof {
                    assert forall|p: (usize, usize)|
                        collide(build_keys@, probe_keys@, p) && p.0 < j + 1 && !(
                        #[trigger] pairs_of(*pairs).contains(p)) implies call_ensures(
                        verify,
                        p,
                        false,
                    ) by {
                        if p.0 == j {
                            assert(build_keys@[p.1 as int] == key);
                            assert(buckets.dom().contains(build_keys@[p.1 as int]));
                        }
                    }
                }
            },
        }
        j += 1;
    }
    buckets_clear(store);
}

/// A prefix that grows by one element holds what it held, and that element.
pub proof fn lemma_take_next<T>(s: Seq<T>, k: int)
    requires
        0 <= k < s.len(),
    ensures
        forall|x: T| #[trigger] s.take(k + 1).contains(x) <==> (s.take(k).contains(x) || x == s[k]),
{
    let shorter = s.take(k);
    let longer = s.take(k + 1);
    assert forall|x: T| #[trigger] longer.contains(x) <==> (shorter.contains(x) || x == s[k]) by {
        if longer.contains(x) {
            let idx = choose|idx: int| 0 <= idx < longer.len() && longer[idx] == x;
            if idx < k {
                assert(shorter[idx] == x);
            }
        }
        if shorter.contains(x) {
            let idx = choose|idx: int| 0 <= idx < shorter.len() && shorter[idx] == x;
            assert(longer[idx] == x);
        }
        if x == s[k] {
            assert(longer[k] == x);
        }
    }
}

} // verus!
