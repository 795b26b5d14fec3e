//! The bookkeeping of a Fellegi-Sunter estimator: candidate pairs grouped by
//! their agreement pattern, the size of each field's parameter table, and the
//! way from one value per group back to one value per pair.
//!
//! The estimator's arithmetic is done on these groups by whoever holds the
//! probabilities; nothing here depends on what kind of number they are.
//!
//! Rows are grouped by exact equality of their patterns. A digest of the
//! pattern only narrows the search: two patterns that share a digest are still
//! compared level by level.

use crate::digest::{fx_words, fx_words_digest};
use itertools::Itertools;
use std::collections::HashMap;
use vstd::prelude::*;
use vstd::seq_lib::seq_to_set_is_finite;
use vstd::set_lib::{lemma_int_range, lemma_len_subset, lemma_set_disjoint_lens, set_int_range};

verus! {

broadcast use vstd::std_specs::hash::group_hash_axioms;

/// Why an agreement matrix was refused.
#[derive(Clone, Copy, Debug, PartialEq, Eq, Structural)]
pub enum LinkError {
    /// The matrix has no row.
    NoRows,
    /// A row has another number of fields than the first row.
    RaggedRow,
    /// A field shows a level that is not below the number of distinct levels
    /// of that field, so the level has no place in the field's table.
    LevelOutOfRange,
}

impl LinkError {
    /// What went wrong, in words.
    pub fn describe(&self) -> (message: String)
        ensures
            message@ == match *self {
                LinkError::NoRows => "the agreement matrix has no rows"@,
                LinkError::RaggedRow => "the rows of the agreement matrix differ in length"@,
                LinkError::LevelOutOfRange =>
                    "the levels of a field must be 0, 1, 2 and so on without gaps"@,
            },
    {
        match self {
            LinkError::NoRows => "the agreement matrix has no rows".to_string(),
            LinkError::RaggedRow => "the rows of the agreement matrix differ in length".to_string(),
            LinkError::LevelOutOfRange => {
                "the levels of a field must be 0, 1, 2 and so on without gaps".to_string()
            },
        }
    }
}

/// What the estimator does next.
#[derive(Clone, Copy, Debug, PartialEq, Eq, Structural)]
pub enum LinkStep {
    /// Run another expectation and maximization step.
    Iterate,
    /// Stop: the parameters have settled.
    Converged,
    /// Stop: the parameters have not settled within the allowed steps.
    Exhausted,
}

/// What follows after `iterations` steps, of which `max_iterations` are
/// allowed, when the last change was within tolerance (`settled`) or not.
pub open spec fn step_after(iterations: i32, max_iterations: i32, settled: bool) -> LinkStep {
    if settled {
        LinkStep::Converged
    } else if iterations >= max_iterations {
        LinkStep::Exhausted
    } else {
        LinkStep::Iterate
    }
}

/// Decides what the estimator does next, and counts the step it allows.
pub fn next_step(iterations: i32, max_iterations: i32, settled: bool) -> (decision: (LinkStep, i32))
    ensures
        decision.0 == step_after(iterations, max_iterations, settled),
        decision.1 == if decision.0 == LinkStep::Iterate {
            iterations + 1
        } else {
            iterations as int
        },
{
    if settled {
        (LinkStep::Converged, iterations)
    } else if iterations >= max_iterations {
        (LinkStep::Exhausted, iterations)
    } else {
        (LinkStep::Iterate, iterations + 1)
    }
}

/// The rows of a matrix as sequences.
pub open spec fn rows_of(matrix: Seq<Vec<usize>>) -> Seq<Seq<usize>> {
    matrix.map_values(|row: Vec<usize>| row@)
}

/// Whether every row has as many fields as the first.
pub open spec fn rectangular(rows: Seq<Seq<usize>>) -> bool {
    forall|r: int| 0 <= r < rows.len() ==> (#[trigger] rows[r]).len() == rows[0].len()
}

/// The levels that one field shows, row by row.
pub open spec fn column(rows: Seq<Seq<usize>>, field: int) -> Seq<usize> {
    Seq::new(rows.len(), |r: int| rows[r][field])
}

/// The number of distinct levels that one field shows.
pub open spec fn distinct_levels(rows: Seq<Seq<usize>>, field: int) -> nat {
    column(rows, field).to_set().len()
}

/// Whether every level is below the number of distinct levels of its field.
pub open spec fn levels_fit(rows: Seq<Seq<usize>>) -> bool {
    forall|r: int, f: int|
        0 <= r < rows.len() && 0 <= f < rows[0].len() ==> (#[trigger] rows[r][f]) < distinct_levels(
            rows,
            f,
        )
}

/// `Itertools::unique`, collected and counted: the number of distinct values.
#[verifier::external_body]
fn count_unique(values: &Vec<usize>) -> (count: usize)
    ensures
        count == values@.to_set().len(),
{
    values.iter().unique().collect::<Vec<&usize>>().len()
}

/// The digest that a pattern is filed under while rows are grouped. Equal
/// patterns have equal digests; patterns with equal digests are still told
/// apart by holding them against each other level by level.
spec fn pattern_digest(pattern: Seq<usize>) -> u64 {
    fx_words_digest(pattern.map_values(|level: usize| level as u64))
}

/// The digest of a pattern.
fn pattern_key(pattern: &Vec<usize>) -> (key: u64)
    ensures
        key == pattern_digest(pattern@),
{
    let mut words: Vec<u64> = Vec::new();
    let ghost widen = |level: usize| level as u64;
    let mut f: usize = 0;
    while f < pattern.len()
        invariant
            f <= pattern.len(),
            widen == |level: usize| level as u64,
            words@ == pattern@.take(f as int).map_values(widen),
        decreases pattern.len() - f,
    {
        proof {
            pattern@.lemma_take_succ_push(f as int);
            pattern@.take(f as int).lemma_push_map_commute(widen, pattern@[f as int]);
        }
        words.push(pattern[f] as u64);
        f += 1;
    }
    proof {
        pattern@.lemma_take_len();
    }
    fx_words(words.as_slice())
}

/// Whether the index files every bundle under the digest of its pattern, and
/// nothing but bundles.
spec fn indexed(index: Map<u64, Vec<usize>>, bundles: Seq<AgreeBundle>) -> bool {
    &&& forall|b: int|
        0 <= b < bundles.len() ==> {
            let key = pattern_digest((#[trigger] bundles[b]).pattern@);
            index.dom().contains(key) && index[key]@.contains(b as usize)
        }
    &&& forall|key: u64, t: int|
        index.dom().contains(key) && 0 <= t < index[key]@.len() ==> (#[trigger] index[key]@[t])
            < bundles.len()
}

/// Whether two patterns are the same.
fn same_pattern(a: &Vec<usize>, b: &Vec<usize>) -> (same: bool)
    ensures
        same == (a@ == b@),
{
    if a.len() != b.len() {
        return false;
    }
    let mut f: usize = 0;
    while f < a.len()
        invariant
            a@.len() == b@.len(),
            f <= a.len(),
            forall|k: int| 0 <= k < f ==> a@[k] == b@[k],
        decreases a.len() - f,
    {
        if a[f] != b[f] {
            return false;
        }
        f += 1;
    }
    assert(a@ =~= b@);
    true
}

/// The pairs that show one agreement pattern.
#[derive(Debug)]
pub struct AgreeBundle {
    /// The level of each field.
    pub pattern: Vec<usize>,
    /// The rows that show the pattern, in increasing order.
    pub ids: Vec<usize>,
}

impl AgreeBundle {
    /// The bundle of the first row that shows `pattern`.
    pub fn new(pattern: &Vec<usize>, id: usize) -> (bundle: Self)
        ensures
            bundle.pattern@ == pattern@,
            bundle.ids@ == seq![id],
    {
        let mut copy: Vec<usize> = Vec::new();
        let mut f: usize = 0;
        while f < pattern.len()
            invariant
                f <= pattern.len(),
                copy@ == pattern@.take(f as int),
            decreases pattern.len() - f,
        {
            copy.push(pattern[f]);
            proof {
                pattern@.lemma_take_succ_push(f as int);
            }
            f += 1;
        }
        proof {
            pattern@.lemma_take_len();
        }
        let mut ids: Vec<usize> = Vec::new();
        ids.push(id);
        Self { pattern: copy, ids }
    }

    /// Adds one more row that shows the pattern.
    pub fn add(&mut self, id: usize)
        ensures
            final(self).pattern@ == old(self).pattern@,
            final(self).ids@ == old(self).ids@.push(id),
    {
        self.ids.push(id);
    }

    /// The number of rows that show the pattern.
    pub fn count(&self) -> (n: usize)
        ensures
            n == self.ids@.len(),
    {
        self.ids.len()
    }
}

/// Whether the ids grow from each to the next.
pub open spec fn increasing(ids: Seq<usize>) -> bool {
    forall|s: int, t: int| 0 <= s < t < ids.len() ==> ids[s] < ids[t]
}

/// Whether the bundles split the rows that `assignment` covers by their
/// pattern: every such row belongs to the bundle that `assignment` names and
/// to no other, that bundle shows the row's pattern, no two bundles show the
/// same pattern, no bundle is empty, and the bundles stand in the order in
/// which their first rows come.
pub open spec fn grouped(
    bundles: Seq<AgreeBundle>,
    assignment: Seq<usize>,
    rows: Seq<Seq<usize>>,
) -> bool {
    &&& assignment.len() <= rows.len()
    &&& forall|r: int|
        0 <= r < assignment.len() ==> {
            let b = #[trigger] assignment[r];
            &&& b < bundles.len()
            &&& bundles[b as int].ids@.contains(r as usize)
            &&& bundles[b as int].pattern@ == rows[r]
        }
    &&& forall|b: int, t: int|
        0 <= b < bundles.len() && 0 <= t < bundles[b].ids@.len() ==> {
            let r = #[trigger] bundles[b].ids@[t];
            &&& r < assignment.len()
            &&& assignment[r as int] == b
        }
    &&& forall|b: int|
        0 <= b < bundles.len() ==> (#[trigger] bundles[b]).ids@.len() > 0 && increasing(
            bundles[b].ids@,
        )
    &&& forall|a: int, b: int|
        0 <= a < b < bundles.len() ==> (#[trigger] bundles[a]).pattern@ != (
        #[trigger] bundles[b]).pattern@ && bundles[a].ids@[0] < bundles[b].ids@[0]
}

/// The number of fields of a matrix that has a row and whose rows all have
/// as many fields as the first.
fn check_shape(x_mat: &Vec<Vec<usize>>) -> (outcome: Result<usize, LinkError>)
    ensures
        match outcome {
            Ok(width) => {
                &&& x_mat@.len() > 0
                &&& rectangular(rows_of(x_mat@))
                &&& width == rows_of(x_mat@)[0].len()
            },
            Err(LinkError::NoRows) => x_mat@.len() == 0,
            Err(LinkError::RaggedRow) => x_mat@.len() > 0 && !rectangular(rows_of(x_mat@)),
            Err(LinkError::LevelOutOfRange) => false,
        },
{
    let ghost rows = rows_of(x_mat@);
    let n = x_mat.len();
    if n == 0 {
        return Err(LinkError::NoRows);
    }
    let width = x_mat[0].len();
    let mut r: usize = 0;
    while r < n
        invariant
            n == x_mat@.len(),
            rows == rows_of(x_mat@),
            r <= n,
            width == rows[0].len(),
            forall|q: int| 0 <= q < r ==> (#[trigger] rows[q]).len() == width,
        decreases n - r,
    {
        if x_mat[r].len() != width {
            assert(rows[r as int].len() != rows[0].len());
            return Err(LinkError::RaggedRow);
        }
        r += 1;
    }
    Ok(width)
}

/// The number of distinct levels of each field, if every level of the field
/// is below that number.
fn count_levels(x_mat: &Vec<Vec<usize>>, width: usize) -> (outcome: Result<Vec<usize>, LinkError>)
    requires
        x_mat@.len() > 0,
        rectangular(rows_of(x_mat@)),
        width == rows_of(x_mat@)[0].len(),
    ensures
        match outcome {
            Ok(levels) => {
                &&& levels_fit(rows_of(x_mat@))
                &&& levels@.len() == width
                &&& forall|f: int|
                    0 <= f < levels@.len() ==> #[trigger] levels@[f] == distinct_levels(
                        rows_of(x_mat@),
                        f,
                    )
            },
            Err(error) => error == LinkError::LevelOutOfRange && !levels_fit(rows_of(x_mat@)),
        },
{
    let ghost rows = rows_of(x_mat@);
    let n = x_mat.len();
    let mut levels: Vec<usize> = Vec::new();
    let mut f: usize = 0;
    while f < width
        invariant
            n == x_mat@.len(),
            n > 0,
            rows == rows_of(x_mat@),
            rectangular(rows),
            width == rows[0].len(),
            f <= width,
            levels@.len() == f,
            forall|g: int| 0 <= g < f ==> #[trigger] levels@[g] == distinct_levels(rows, g),
            forall|q: int, g: int|
                0 <= q < n && 0 <= g < f ==> (#[trigger] rows[q][g]) < distinct_levels(rows, g),
        decreases width - f,
    {
        let mut col: Vec<usize> = Vec::new();
        let mut q: usize = 0;
        while q < n
            invariant
                n == x_mat@.len(),
                rows == rows_of(x_mat@),
                rectangular(rows),
                width == rows[0].len(),
                f < width,
                q <= n,
                col@ == column(rows, f as int).take(q as int),
            decreases n - q,
        {
            assert(rows[q as int].len() == width);
            col.push(x_mat[q][f]);
            proof {
                column(rows, f as int).lemma_take_succ_push(q as int);
            }
            q += 1;
        }
        proof {
            column(rows, f as int).lemma_take_len();
        }
        let unique = count_unique(&col);
        let mut q: usize = 0;
        while q < n
            invariant
                n == x_mat@.len(),
                rows == rows_of(x_mat@),
                rectangular(rows),
                width == rows[0].len(),
                f < width,
                q <= n,
                col@ == column(rows, f as int),
                unique == distinct_levels(rows, f as int),
                forall|p: int| 0 <= p < q ==> (#[trigger] rows[p][f as int]) < unique,
            decreases n - q,
        {
            if col[q] >= unique {
                assert(rows[q as int][f as int] >= distinct_levels(rows, f as int));
                return Err(LinkError::LevelOutOfRange);
            }
            q += 1;
        }
        levels.push(unique);
        f += 1;
    }
    assert(levels_fit(rows));
    Ok(levels)
}

/// The rows split into bundles by their pattern, and for each row the place
/// of its bundle.
fn group_rows(x_mat: &Vec<Vec<usize>>) -> (grouping: (Vec<AgreeBundle>, Vec<usize>))
    ensures
        grouping.1@.len() == x_mat@.len(),
        grouped(grouping.0@, grouping.1@, rows_of(x_mat@)),
{
    let ghost rows = rows_of(x_mat@);
    let n = x_mat.len();
    let mut bundles: Vec<AgreeBundle> = Vec::new();
    let mut row_bundle: Vec<usize> = Vec::new();
    let mut index: HashMap<u64, Vec<usize>> = HashMap::new();
    let mut r: usize = 0;
    while r < n
        invariant
            n == x_mat@.len(),
            rows == rows_of(x_mat@),
            r <= n,
            row_bundle@.len() == r,
            grouped(bundles@, row_bundle@, rows),
            indexed(index@, bundles@),
        decreases n - r,
    {
        let key = pattern_key(&x_mat[r]);
        let mut found: Option<usize> = None;
        match index.get(&key) {
            Some(candidates) => {
                let mut t: usize = 0;
                while t < candidates.len()
                    invariant_except_break
                        found is None,
                        forall|s: int|
                            0 <= s < t ==> bundles@[(#[trigger] candidates@[s]) as int].pattern@
                                != rows[r as int],
                    invariant
                        n == x_mat@.len(),
                        rows == rows_of(x_mat@),
                        r < n,
                        t <= candidates.len(),
                        forall|s: int|
                            0 <= s < candidates@.len() ==> (#[trigger] candidates@[s])
                                < bundles.len(),
                    ensures
                        match found {
                            Some(at) => at < bundles.len() && bundles@[at as int].pattern@
                                == rows[r as int],
                            None => forall|s: int|
                                0 <= s < candidates@.len() ==> bundles@[(
                                #[trigger] candidates@[s]) as int].pattern@ != rows[r as int],
                        },
                    decreases candidates.len() - t,
                {
                    let b = candidates[t];
                    if same_pattern(&bundles[b].pattern, &x_mat[r]) {
                        found = Some(b);
                        break;
                    }
                    t += 1;
                }
                proof {
                    if found is None {
                        assert forall|a: int| 0 <= a < bundles.len() implies (
                        #[trigger] bundles@[a]).pattern@ != rows[r as int] by {
                            if bundles@[a].pattern@ == rows[r as int] {
                                assert(pattern_digest(bundles@[a].pattern@) == key);
                                let s = choose|s: int|
                                    0 <= s < candidates@.len() && candidates@[s] == a as usize;
                                assert(bundles@[candidates@[s] as int].pattern@
                                    != rows[r as int]);
                            }
                        }
                    }
                }
            },
            None => {
                proof {
                    assert forall|a: int| 0 <= a < bundles.len() implies (
                    #[trigger] bundles@[a]).pattern@ != rows[r as int] by {
                        if bundles@[a].pattern@ == rows[r as int] {
                            assert(pattern_digest(bundles@[a].pattern@) == key);
                        }
                    }
                }
            },
        }
        let ghost before = bundles@;
        let ghost assigned = row_bundle@;
        match found {
            Some(at) => {
                bundles[at].add(r);
                row_bundle.push(at);
                proof {
                    lemma_grouped_add(before, bundles@, assigned, rows, at as int);
                    assert forall|b: int| 0 <= b < bundles@.len() implies (
                    #[trigger] bundles@[b]).pattern@ == before[b].pattern@ by {}
                    assert(indexed(index@, bundles@));
                }
            },
            None => {
                let bundle = AgreeBundle::new(&x_mat[r], r);
                let place = bundles.len();
                bundles.push(bundle);
                row_bundle.push(place);
                let ghost filed = index@;
                let mut same_key: Vec<usize> = match index.remove(&key) {
                    Some(list) => list,
                    None => Vec::new(),
                };
                let ghost known = same_key@;
                same_key.push(place);
                index.insert(key, same_key);
                proof {
                    lemma_grouped_new(before, bundles@, assigned, rows);
                    assert forall|b: int| 0 <= b < bundles@.len() implies {
                        let other = pattern_digest((#[trigger] bundles@[b]).pattern@);
                        index@.dom().contains(other) && index@[other]@.contains(b as usize)
                    } by {
                        let other = pattern_digest(bundles@[b].pattern@);
                        if b == place {
                            assert(index@[key]@[known.len() as int] == place);
                        } else {
                            assert(bundles@[b] == before[b]);
                            assert(filed[other]@.contains(b as usize));
                            if other == key {
                                let t = choose|t: int|
                                    0 <= t < known.len() && known[t] == b as usize;
                                assert(index@[key]@[t] == b as usize);
                            }
                        }
                    }
                    assert forall|other: u64, t: int|
                        index@.dom().contains(other) && 0 <= t < index@[other]@.len() implies (
                    #[trigger] index@[other]@[t]) < bundles@.len() by {
                        if other == key {
                            if t < known.len() {
                                assert(filed[key]@[t] < before.len());
                            }
                        } else {
                            assert(filed[other]@[t] < before.len());
                        }
                    }
                }
            },
        }
        r += 1;
    }
    (bundles, row_bundle)
}

/// The agreement patterns of a set of candidate pairs, grouped.
#[derive(Debug)]
pub struct EMLinker {
    bundles: Vec<AgreeBundle>,
    n: usize,
    levels: Vec<usize>,
    row_bundle: Vec<usize>,
}

impl View for EMLinker {
    type V = Seq<Seq<usize>>;

    /// The agreement matrix that the linker stands for, row by row.
    closed spec fn view(&self) -> Seq<Seq<usize>> {
        Seq::new(self.n as nat, |r: int| self.bundles@[self.row_bundle@[r] as int].pattern@)
    }
}

impl EMLinker {
    /// The bundles, in the order in which their first rows come.
    pub closed spec fn bundle_seq(&self) -> Seq<AgreeBundle> {
        self.bundles@
    }

    /// For each row, the place of its bundle among the bundles.
    pub closed spec fn assignment(&self) -> Seq<usize> {
        self.row_bundle@
    }

    /// For each field, the size of its parameter table.
    pub closed spec fn level_counts(&self) -> Seq<usize> {
        self.levels@
    }

    /// Whether the linker is consistent: it has a row, its bundles split its
    /// rows by pattern, and each field's table has one place for each
    /// distinct level of the field, which every level of the field fits.
    pub open spec fn wf(&self) -> bool {
        &&& self@.len() > 0
        &&& self.assignment().len() == self@.len()
        &&& grouped(self.bundle_seq(), self.assignment(), self@)
        &&& rectangular(self@)
        &&& levels_fit(self@)
        &&& self.level_counts().len() == self@[0].len()
        &&& forall|f: int|
            0 <= f < self.level_counts().len() ==> #[trigger] self.level_counts()[f]
                == distinct_levels(self@, f)
    }

    /// Groups the rows of an agreement matrix by their pattern and sizes the
    /// parameter table of each field.
    pub fn new(x_mat: &Vec<Vec<usize>>) -> (outcome: Result<Self, LinkError>)
        ensures
            match outcome {
                Ok(linker) => {
                    &&& linker.wf()
                    &&& linker@ == rows_of(x_mat@)
                },
                Err(LinkError::NoRows) => x_mat@.len() == 0,
                Err(LinkError::RaggedRow) => x_mat@.len() > 0 && !rectangular(rows_of(x_mat@)),
                Err(LinkError::LevelOutOfRange) => {
                    &&& x_mat@.len() > 0
                    &&& rectangular(rows_of(x_mat@))
                    &&& !levels_fit(rows_of(x_mat@))
                },
            },
    {
        let width = match check_shape(x_mat) {
            Ok(width) => width,
            Err(error) => {
                return Err(error);
            },
        };
        let levels = match count_levels(x_mat, width) {
            Ok(levels) => levels,
            Err(error) => {
                return Err(error);
            },
        };
        let (bundles, row_bundle) = group_rows(x_mat);
        let linker = EMLinker { bundles, n: x_mat.len(), levels, row_bundle };
        proof {
            assert(linker@ =~= rows_of(x_mat@));
        }
        Ok(linker)
    }

    /// The bundles, in the order in which their first rows come.
    pub fn bundles(&self) -> (bundles: &Vec<AgreeBundle>)
        ensures
            bundles@ == self.bundle_seq(),
    {
        &self.bundles
    }

    /// The number of rows.
    pub fn n_rows(&self) -> (n: usize)
        ensures
            n == self@.len(),
    {
        self.n
    }

    /// For each field, the size of its parameter table.
    pub fn levels(&self) -> (levels: &Vec<usize>)
        ensures
            levels@ == self.level_counts(),
    {
        &self.levels
    }

    /// The place, among the bundles, of the bundle that a row belongs to.
    pub fn bundle_of(&self, row: usize) -> (place: usize)
        requires
            self.wf(),
            row < self@.len(),
        ensures
            place == self.assignment()[row as int],
            place < self.bundle_seq().len(),
    {
        self.row_bundle[row]
    }

    /// Hands each row the value of its bundle: from one value per bundle to
    /// one value per row, in the order of the rows.
    pub fn expand<T: Copy>(&self, values: &Vec<T>) -> (out: Vec<T>)
        requires
            self.wf(),
            values@.len() == self.bundle_seq().len(),
        ensures
            out@.len() == self@.len(),
            forall|r: int|
                0 <= r < out@.len() ==> #[trigger] out@[r] == values@[self.assignment()[r] as int],
    {
        let mut out: Vec<T> = Vec::new();
        let mut r: usize = 0;
        while r < self.row_bundle.len()
            invariant
                self.wf(),
                values@.len() == self.bundle_seq().len(),
                r <= self.row_bundle@.len(),
                out@.len() == r,
                forall|q: int|
                    0 <= q < r ==> #[trigger] out@[q] == values@[self.assignment()[q] as int],
            decreases self.row_bundle.len() - r,
        {
            let place = self.row_bundle[r];
            assert(self.assignment()[r as int] < self.bundle_seq().len());
            out.push(values[place]);
            r += 1;
        }
        out
    }
}

/// Every pattern of a consistent linker has one level for each field, and
/// each level has a place in the table of its field.
pub proof fn patterns_fit_tables(linker: EMLinker, b: int, f: int)
    requires
        linker.wf(),
        0 <= b < linker.bundle_seq().len(),
        0 <= f < linker.level_counts().len(),
    ensures
        linker.bundle_seq()[b].pattern@.len() == linker.level_counts().len(),
        linker.bundle_seq()[b].pattern@[f] < linker.level_counts()[f],
{
    let bundle = linker.bundle_seq()[b];
    assert(bundle.ids@.len() > 0);
    let r = bundle.ids@[0];
    assert(linker.assignment()[r as int] == b);
    assert(bundle.pattern@ == linker@[r as int]);
    assert(linker@[r as int].len() == linker@[0].len());
    assert(linker@[r as int][f] < distinct_levels(linker@, f));
}

/// The bundles split the rows: a row belongs to the bundle that it is
/// assigned to and to no other.
pub proof fn each_row_in_one_bundle(linker: EMLinker, row: usize, b: int)
    requires
        linker.wf(),
        row < linker@.len(),
        0 <= b < linker.bundle_seq().len(),
    ensures
        linker.bundle_seq()[b].ids@.contains(row) <==> b == linker.assignment()[row as int],
{
    let ids = linker.bundle_seq()[b].ids@;
    if ids.contains(row) {
        let t = choose|t: int| 0 <= t < ids.len() && ids[t] == row;
        assert(linker.assignment()[linker.bundle_seq()[b].ids@[t] as int] == b);
    }
    if b == linker.assignment()[row as int] {
        assert(linker.bundle_seq()[linker.assignment()[row as int] as int].ids@.contains(row));
    }
}

/// The number of rows in all the bundles together.
pub open spec fn total_count(bundles: Seq<AgreeBundle>) -> nat
    decreases bundles.len(),
{
    if bundles.len() == 0 {
        0
    } else {
        total_count(bundles.drop_last()) + bundles.last().ids@.len()
    }
}

/// The rows that are assigned to one of the first `k` bundles.
spec fn covered(assignment: Seq<usize>, k: int) -> Set<int> {
    Set::new(|r: int| 0 <= r < assignment.len() && assignment[r] < k)
}

/// The first `k` bundles hold, between them, as many rows as are assigned to
/// them.
proof fn lemma_prefix_count(
    bundles: Seq<AgreeBundle>,
    assignment: Seq<usize>,
    rows: Seq<Seq<usize>>,
    k: int,
)
    requires
        grouped(bundles, assignment, rows),
        assignment.len() <= usize::MAX,
        0 <= k <= bundles.len(),
    ensures
        covered(assignment, k).finite(),
        covered(assignment, k).len() == total_count(bundles.take(k)),
    decreases k,
{
    let all = set_int_range(0, assignment.len() as int);
    lemma_int_range(0, assignment.len() as int);
    assert(covered(assignment, k).subset_of(all));
    lemma_len_subset(covered(assignment, k), all);
    if k == 0 {
        assert(covered(assignment, 0) =~= Set::<int>::empty());
        assert(bundles.take(0) =~= Seq::<AgreeBundle>::empty());
    } else {
        lemma_prefix_count(bundles, assignment, rows, k - 1);
        let before = covered(assignment, k - 1);
        let ids = bundles[k - 1].ids@;
        let members = ids.map_values(|id: usize| id as int);
        assert(increasing(ids));
        assert(members.no_duplicates()) by {
            assert forall|s: int, t: int|
                0 <= s < members.len() && 0 <= t < members.len() && s != t implies members[s]
                != members[t] by {
                if s < t {
                    assert(ids[s] < ids[t]);
                } else {
                    assert(ids[t] < ids[s]);
                }
            }
        }
        members.unique_seq_to_set();
        seq_to_set_is_finite(members);
        let added = members.to_set();
        assert forall|r: int| added.contains(r) <==> (0 <= r < assignment.len() && assignment[r]
            == k - 1) by {
            if added.contains(r) {
                let t = choose|t: int| 0 <= t < members.len() && members[t] == r;
                assert(bundles[k - 1].ids@[t] == r);
            }
            if 0 <= r < assignment.len() && assignment[r] == k - 1 {
                assert(bundles[assignment[r] as int].ids@.contains(r as usize));
                let t = choose|t: int| 0 <= t < ids.len() && ids[t] == r as usize;
                assert(members[t] == r);
            }
        }
        assert(before.disjoint(added));
        assert(covered(assignment, k) =~= before + added);
        lemma_set_disjoint_lens(before, added);
        assert(bundles.take(k).drop_last() =~= bundles.take(k - 1));
        assert(bundles.take(k).last() == bundles[k - 1]);
    }
}

/// The bundles of a consistent linker hold, between them, as many rows as
/// the matrix has.
pub proof fn bundle_counts_add_up(linker: EMLinker)
    requires
        linker.wf(),
    ensures
        total_count(linker.bundle_seq()) == linker@.len(),
{
    let bundles = linker.bundle_seq();
    let assignment = linker.assignment();
    assert(assignment.len() == linker.row_bundle.len());
    lemma_prefix_count(bundles, assignment, linker@, bundles.len() as int);
    assert(bundles.take(bundles.len() as int) =~= bundles);
    lemma_int_range(0, assignment.len() as int);
    assert(covered(assignment, bundles.len() as int) =~= set_int_range(
        0,
        assignment.len() as int,
    ));
}

/// Where every row shows the same pattern there is one bundle, and every row
/// belongs to it.
pub proof fn identical_rows_make_one_bundle(linker: EMLinker)
    requires
        linker.wf(),
        forall|r: int| 0 <= r < linker@.len() ==> #[trigger] linker@[r] == linker@[0],
    ensures
        linker.bundle_seq().len() == 1,
        forall|r: int| 0 <= r < linker@.len() ==> #[trigger] linker.assignment()[r] == 0,
{
    let bundles = linker.bundle_seq();
    let assignment = linker.assignment();
    assert(assignment[0] < bundles.len());
    assert forall|b: int| 0 <= b < bundles.len() implies (#[trigger] bundles[b]).pattern@
        == linker@[0] by {
        assert(bundles[b].ids@.len() > 0);
        let r = bundles[b].ids@[0];
        assert(assignment[r as int] == b);
        assert(bundles[b].pattern@ == linker@[r as int]);
    }
    if bundles.len() > 1 {
        assert(bundles[0].pattern@ != bundles[1].pattern@);
    }
    assert forall|r: int| 0 <= r < linker@.len() implies #[trigger] assignment[r] == 0 by {
        assert(assignment[r] < bundles.len());
    }
}

/// Grouping survives when the next row joins the bundle that shows its
/// pattern.
proof fn lemma_grouped_add(
    before: Seq<AgreeBundle>,
    after: Seq<AgreeBundle>,
    assignment: Seq<usize>,
    rows: Seq<Seq<usize>>,
    at: int,
)
    requires
        grouped(before, assignment, rows),
        assignment.len() < rows.len(),
        assignment.len() <= usize::MAX,
        0 <= at < before.len(),
        before[at].pattern@ == rows[assignment.len() as int],
        after.len() == before.len(),
        forall|b: int| 0 <= b < before.len() && b != at ==> after[b] == before[b],
        after[at].pattern@ == before[at].pattern@,
        after[at].ids@ == before[at].ids@.push(assignment.len() as usize),
    ensures
        grouped(after, assignment.push(at as usize), rows),
{
    let r = assignment.len() as usize;
    let wider = assignment.push(at as usize);
    assert forall|q: int| 0 <= q < wider.len() implies {
        let b = #[trigger] wider[q];
        &&& b < after.len()
        &&& after[b as int].ids@.contains(q as usize)
        &&& after[b as int].pattern@ == rows[q]
    } by {
        let b = wider[q];
        if q < assignment.len() {
            assert(b == assignment[q]);
            let t = choose|t: int|
                0 <= t < before[b as int].ids@.len() && before[b as int].ids@[t] == q as usize;
            assert(after[b as int].ids@[t] == q as usize);
        } else {
            assert(after[at].ids@[before[at].ids@.len() as int] == r);
        }
    }
    assert forall|b: int, t: int| 0 <= b < after.len() && 0 <= t < after[b].ids@.len() implies {
        let q = #[trigger] after[b].ids@[t];
        &&& q < wider.len()
        &&& wider[q as int] == b
    } by {
        if b == at && t == before[at].ids@.len() {
        } else {
            assert(after[b].ids@[t] == before[b].ids@[t]);
        }
    }
    assert forall|b: int| 0 <= b < after.len() implies (#[trigger] after[b]).ids@.len() > 0
        && increasing(after[b].ids@) by {
        assert(before[b].ids@.len() > 0 && increasing(before[b].ids@));
        if b == at {
            assert forall|s: int, t: int| 0 <= s < t < after[b].ids@.len() implies after[b].ids@[s]
                < after[b].ids@[t] by {
                assert(after[b].ids@[s] == before[b].ids@[s]);
                if t < before[b].ids@.len() {
                    assert(after[b].ids@[t] == before[b].ids@[t]);
                } else {
                    assert(before[b].ids@[s] < assignment.len());
                }
            }
        }
    }
    assert forall|a: int, b: int| 0 <= a < b < after.len() implies (#[trigger] after[a]).pattern@
        != (#[trigger] after[b]).pattern@ && after[a].ids@[0] < after[b].ids@[0] by {
        assert(before[a].pattern@ != before[b].pattern@ && before[a].ids@[0] < before[b].ids@[0]);
        assert(before[a].ids@.len() > 0);
        assert(before[b].ids@.len() > 0);
        assert(after[a].ids@[0] == before[a].ids@[0]);
        assert(after[b].ids@[0] == before[b].ids@[0]);
    }
}

/// Grouping survives when the next row, whose pattern no bundle shows, gets a
/// bundle of its own at the end.
proof fn lemma_grouped_new(
    before: Seq<AgreeBundle>,
    after: Seq<AgreeBundle>,
    assignment: Seq<usize>,
    rows: Seq<Seq<usize>>,
)
    requires
        grouped(before, assignment, rows),
        assignment.len() < rows.len(),
        assignment.len() <= usize::MAX,
        before.len() <= usize::MAX,
        forall|a: int| 0 <= a < before.len() ==> (#[trigger] before[a]).pattern@ != rows[assignment.len() as int],
        after.len() == before.len() + 1,
        forall|b: int| 0 <= b < before.len() ==> after[b] == before[b],
        after[before.len() as int].pattern@ == rows[assignment.len() as int],
        after[before.len() as int].ids@ == seq![assignment.len() as usize],
    ensures
        grouped(after, assignment.push(before.len() as usize), rows),
{
    let r = assignment.len() as usize;
    let last = before.len() as int;
    let wider = assignment.push(last as usize);
    assert forall|q: int| 0 <= q < wider.len() implies {
        let b = #[trigger] wider[q];
        &&& b < after.len()
        &&& after[b as int].ids@.contains(q as usize)
        &&& after[b as int].pattern@ == rows[q]
    } by {
        if q < assignment.len() {
            assert(wider[q] == assignment[q]);
        } else {
            assert(after[last].ids@[0] == r);
        }
    }
    assert forall|b: int, t: int| 0 <= b < after.len() && 0 <= t < after[b].ids@.len() implies {
        let q = #[trigger] after[b].ids@[t];
        &&& q < wider.len()
        &&& wider[q as int] == b
    } by {
        if b < last {
            assert(after[b].ids@[t] == before[b].ids@[t]);
        }
    }
    assert forall|b: int| 0 <= b < after.len() implies (#[trigger] after[b]).ids@.len() > 0
        && increasing(after[b].ids@) by {
        if b < last {
            assert(before[b].ids@.len() > 0 && increasing(before[b].ids@));
        }
    }
    assert forall|a: int, b: int| 0 <= a < b < after.len() implies (#[trigger] after[a]).pattern@
        != (#[trigger] after[b]).pattern@ && after[a].ids@[0] < after[b].ids@[0] by {
        if b < last {
            assert(before[a].pattern@ != before[b].pattern@ && before[a].ids@[0]
                < before[b].ids@[0]);
        } else {
            assert(before[a].pattern@ != rows[assignment.len() as int]);
            assert(before[a].ids@.len() > 0);
            assert(before[a].ids@[0] < assignment.len());
        }
    }
}

} // verus!
