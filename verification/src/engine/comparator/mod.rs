//! Ranking of solutions by lists of criteria.

pub mod priority;
pub mod factory;
pub mod area;
pub mod cuts;
pub mod mosaics;
pub mod tiles;
pub mod discrepancy;
pub mod panel_area;
pub mod center_mass;

use std::cmp::Ordering;
use vstd::prelude::*;
use vstd::multiset::Multiset;
use crate::comparator::solution_comparators::order_of;
use crate::engine::comparator::priority::OptimizationPriority;
use crate::model::solution::Solution;
use crate::support::to_int;

verus! {

/// A criterion that ranks solutions by an integer key: lower keys rank first.
pub trait SolutionComparator {
    /// The key by which the criterion ranks a solution.
    spec fn key(&self, s: Solution) -> int;

    /// The criterion is measured in integers.
    spec fn is_integral(&self) -> bool;

    /// Compares two solutions: `Less` when `solution1` ranks first.
    fn compare(&self, solution1: &Solution, solution2: &Solution) -> (r: Ordering)
        requires
            self.is_integral(),
            solution1.measures_fit(),
            solution2.measures_fit(),
        ensures
            r == order_of(self.key(*solution1), self.key(*solution2));
}

/// The order that a list of criteria puts on two solutions: the first criterion that
/// tells them apart decides.
pub open spec fn chain_order<C: SolutionComparator>(cs: Seq<C>, a: Solution, b: Solution) -> Ordering
    decreases cs.len(),
{
    if cs.len() == 0 {
        Ordering::Equal
    } else {
        let o = order_of(cs[0].key(a), cs[0].key(b));
        if o != Ordering::Equal { o } else { chain_order(cs.drop_first(), a, b) }
    }
}

/// Solutions ranked by a list of criteria: no solution ranks after a later one.
pub open spec fn sorted_by_chain<C: SolutionComparator>(cs: Seq<C>, s: Seq<Solution>) -> bool {
    forall|i: int, j: int| 0 <= i < j < s.len() ==> chain_order(cs, #[trigger] s[i], #[trigger] s[j]) != Ordering::Greater
}

/// Every criterion of the list is measured in integers.
pub open spec fn all_integral<C: SolutionComparator>(cs: Seq<C>) -> bool {
    forall|i: int| 0 <= i < cs.len() ==> (#[trigger] cs[i]).is_integral()
}

/// Every solution's measures fit their integer types.
pub open spec fn all_measures_fit(s: Seq<Solution>) -> bool {
    forall|i: int| 0 <= i < s.len() ==> (#[trigger] s[i]).measures_fit()
}

/// Swapping two solutions turns the order around.
pub proof fn lemma_chain_antisymmetric<C: SolutionComparator>(cs: Seq<C>, a: Solution, b: Solution)
    ensures
        (chain_order(cs, a, b) == Ordering::Greater) == (chain_order(cs, b, a) == Ordering::Less),
        (chain_order(cs, a, b) == Ordering::Equal) == (chain_order(cs, b, a) == Ordering::Equal),
    decreases cs.len(),
{
    if cs.len() > 0 {
        lemma_chain_antisymmetric(cs.drop_first(), a, b);
    }
}

/// Ranking by a list of criteria is transitive.
pub proof fn lemma_chain_transitive<C: SolutionComparator>(cs: Seq<C>, a: Solution, b: Solution, c: Solution)
    requires
        chain_order(cs, a, b) != Ordering::Greater,
        chain_order(cs, b, c) != Ordering::Greater,
    ensures
        chain_order(cs, a, c) != Ordering::Greater,
    decreases cs.len(),
{
    if cs.len() > 0 {
        let ka = cs[0].key(a);
        let kb = cs[0].key(b);
        let kc = cs[0].key(c);
        if ka == kb && kb == kc {
            lemma_chain_transitive(cs.drop_first(), a, b, c);
        }
    }
}

/// Compares two solutions by a list of criteria: the first criterion that tells them
/// apart decides; `Equal` when none does.
pub fn compare_by_criteria<C: SolutionComparator>(criteria: &[C], a: &Solution, b: &Solution) -> (r: Ordering)
    requires
        all_integral(criteria@),
        a.measures_fit(),
        b.measures_fit(),
    ensures
        r == chain_order(criteria@, *a, *b),
{
    let mut i: usize = 0;
    proof { assert(criteria@.skip(0) =~= criteria@); }
    while i < criteria.len()
        invariant
            0 <= i <= criteria@.len(),
            all_integral(criteria@),
            a.measures_fit(),
            b.measures_fit(),
            chain_order(criteria@, *a, *b) == chain_order(criteria@.skip(to_int(i)), *a, *b),
        decreases criteria@.len() - i,
    {
        let r = criteria[i].compare(a, b);
        proof {
            assert(criteria@.skip(to_int(i))[0] == criteria@[to_int(i)]);
            assert(criteria@.skip(to_int(i)).drop_first() =~= criteria@.skip(i + 1));
        }
        match r {
            Ordering::Equal => {},
            _ => { return r; },
        }
        i = i + 1;
    }
    Ordering::Equal
}

/// Sorts solutions by a list of criteria, best first; solutions that the criteria do
/// not tell apart keep their order.
pub fn sort_by_criteria<C: SolutionComparator>(solutions: &mut Vec<Solution>, criteria: &[C])
    requires
        all_integral(criteria@),
        all_measures_fit(old(solutions)@),
    ensures
        final(solutions)@.to_multiset() == old(solutions)@.to_multiset(),
        sorted_by_chain(criteria@, final(solutions)@),
        all_measures_fit(final(solutions)@),
{
    let mut src: Vec<Solution> = Vec::new();
    std::mem::swap(&mut src, solutions);
    let ghost orig = src@;
    let mut out: Vec<Solution> = Vec::new();
    proof {
        broadcast use vstd::seq_lib::group_to_multiset_ensures;
        assert(out@.to_multiset() =~= Multiset::<Solution>::empty());
    }
    while src.len() > 0
        invariant
            all_integral(criteria@),
            all_measures_fit(src@),
            all_measures_fit(out@),
            sorted_by_chain(criteria@, out@),
            out@.to_multiset().add(src@.to_multiset()) == orig.to_multiset(),
            solutions@.len() == 0,
        decreases src@.len(),
    {
        let ghost src0 = src@;
        let ghost out0 = out@;
        let x = src.remove(0);
        assert(src0[0] == x);
        let mut j: usize = 0;
        loop
            invariant
                0 <= j <= out@.len(),
                out@ == out0,
                all_integral(criteria@),
                all_measures_fit(out@),
                x.measures_fit(),
                forall|q: int| 0 <= q < j ==> chain_order(criteria@, #[trigger] out@[q], x) != Ordering::Greater,
            ensures
                0 <= j <= out@.len(),
                forall|q: int| 0 <= q < j ==> chain_order(criteria@, #[trigger] out@[q], x) != Ordering::Greater,
                j < out@.len() ==> chain_order(criteria@, out@[to_int(j)], x) == Ordering::Greater,
            decreases out@.len() - j,
        {
            if j >= out.len() {
                break;
            }
            let o = compare_by_criteria(criteria, &out[j], &x);
            if let Ordering::Greater = o {
                break;
            }
            j = j + 1;
        }
        proof {
            if j < out@.len() {
                assert(chain_order(criteria@, out0[to_int(j)], x) == Ordering::Greater);
                lemma_chain_antisymmetric(criteria@, out0[to_int(j)], x);
            }
        }
        out.insert(j, x);
        proof {
            broadcast use vstd::seq_lib::group_to_multiset_ensures;
            vstd::seq_lib::to_multiset_remove(src0, 0);
            vstd::seq_lib::to_multiset_insert(out0, to_int(j), x);
            assert(src0.to_multiset().count(x) > 0);
            assert(out@.to_multiset().add(src@.to_multiset()) =~= out0.to_multiset().add(src0.to_multiset()));
            assert forall|a: int, b: int| 0 <= a < b < out@.len() implies
                chain_order(criteria@, #[trigger] out@[a], #[trigger] out@[b]) != Ordering::Greater by {
                if a < j && b == j {
                } else if a == j && b > j {
                    assert(out@[a] == x);
                    assert(out@[b] == out0[b - 1]);
                    if b - 1 > j {
                        assert(chain_order(criteria@, out0[to_int(j)], out0[b - 1]) != Ordering::Greater);
                        lemma_chain_transitive(criteria@, x, out0[to_int(j)], out0[b - 1]);
                    }
                } else if a < j && b > j {
                    assert(out@[a] == out0[a]);
                    assert(out@[b] == out0[b - 1]);
                } else if a > j {
                    assert(out@[a] == out0[a - 1]);
                    assert(out@[b] == out0[b - 1]);
                } else {
                    assert(out@[a] == out0[a]);
                    assert(out@[b] == out0[b]);
                }
            }
            assert forall|q: int| 0 <= q < out@.len() implies (#[trigger] out@[q]).measures_fit() by {
                if q < j {
                    assert(out@[q] == out0[q]);
                } else if q > j {
                    assert(out@[q] == out0[q - 1]);
                }
            }
            assert forall|q: int| 0 <= q < src@.len() implies (#[trigger] src@[q]).measures_fit() by {
                assert(src@[q] == src0[q + 1]);
            }
        }
    }
    proof {
        broadcast use vstd::seq_lib::group_to_multiset_ensures;
        assert(src@.to_multiset() =~= Multiset::<Solution>::empty());
        assert(out@.to_multiset().add(Multiset::<Solution>::empty()) =~= out@.to_multiset());
    }
    *solutions = out;
}


/// The key by which a priority ranks a solution (lower first); the two priorities that
/// measure in floating point have none here.
pub open spec fn priority_key(p: OptimizationPriority, s: Solution) -> int {
    match p {
        OptimizationPriority::MostTiles => -s.nbr_final_spec(),
        OptimizationPriority::LeastWastedArea => s.unused_area_spec(),
        OptimizationPriority::LeastNbrCuts => s.nbr_cuts_spec(),
        OptimizationPriority::LeastNbrMosaics => s.nbr_mosaics_spec(),
        OptimizationPriority::BiggestUnusedTileArea => -s.biggest_area_spec(),
        OptimizationPriority::LeastNbrUnusedTiles => s.nbr_unused_tiles_spec(),
        OptimizationPriority::MostUnusedPanelArea => -s.most_unused_panel_area_spec(),
        _ => 0,
    }
}

impl SolutionComparator for OptimizationPriority {
    open spec fn key(&self, s: Solution) -> int {
        priority_key(*self, s)
    }

    open spec fn is_integral(&self) -> bool {
        !(*self is MostHVDiscrepancy) && !(*self is SmallestCenterOfMassDistToOrigin)
    }

    fn compare(&self, solution1: &Solution, solution2: &Solution) -> (r: Ordering) {
        match self {
            OptimizationPriority::MostTiles => {
                let x = solution1.get_nbr_final_tiles();
                let y = solution2.get_nbr_final_tiles();
                if y < x { Ordering::Less } else if y == x { Ordering::Equal } else { Ordering::Greater }
            },
            OptimizationPriority::LeastWastedArea => {
                let x = solution1.get_unused_area();
                let y = solution2.get_unused_area();
                if x < y { Ordering::Less } else if x == y { Ordering::Equal } else { Ordering::Greater }
            },
            OptimizationPriority::LeastNbrCuts => {
                let x = solution1.get_nbr_cuts();
                let y = solution2.get_nbr_cuts();
                if x < y { Ordering::Less } else if x == y { Ordering::Equal } else { Ordering::Greater }
            },
            OptimizationPriority::LeastNbrMosaics => {
                let x = solution1.get_nbr_mosaics();
                let y = solution2.get_nbr_mosaics();
                if x < y { Ordering::Less } else if x == y { Ordering::Equal } else { Ordering::Greater }
            },
            OptimizationPriority::BiggestUnusedTileArea => {
                let x = solution1.get_biggest_unused_tile_area();
                let y = solution2.get_biggest_unused_tile_area();
                if y < x { Ordering::Less } else if y == x { Ordering::Equal } else { Ordering::Greater }
            },
            OptimizationPriority::LeastNbrUnusedTiles => {
                let x = solution1.get_nbr_unused_tiles();
                let y = solution2.get_nbr_unused_tiles();
                if x < y { Ordering::Less } else if x == y { Ordering::Equal } else { Ordering::Greater }
            },
            OptimizationPriority::MostUnusedPanelArea => {
                let x = solution1.get_most_unused_panel_area();
                let y = solution2.get_most_unused_panel_area();
                if y < x { Ordering::Less } else if y == x { Ordering::Equal } else { Ordering::Greater }
            },
            _ => Ordering::Equal,
        }
    }
}

/// Ranks solutions by a list of priorities: the first priority that tells two solutions
/// apart decides.
#[derive(Debug)]
pub struct MultiCriteriaComparator {
    pub comparators: Vec<OptimizationPriority>,
}

impl MultiCriteriaComparator {
    /// A comparator over the given priorities, in order.
    pub fn new(comparators: Vec<OptimizationPriority>) -> (m: MultiCriteriaComparator)
        ensures
            m.comparators@ == comparators@,
    {
        MultiCriteriaComparator { comparators }
    }

    /// A comparator over the given priorities, in order.
    pub fn from_priorities(priorities: Vec<OptimizationPriority>) -> (m: MultiCriteriaComparator)
        ensures
            m.comparators@ == priorities@,
    {
        Self::new(priorities)
    }

    /// Compares two solutions: the first priority that tells them apart decides.
    pub fn compare(&self, solution1: &Solution, solution2: &Solution) -> (r: Ordering)
        requires
            all_integral(self.comparators@),
            solution1.measures_fit(),
            solution2.measures_fit(),
        ensures
            r == chain_order(self.comparators@, *solution1, *solution2),
    {
        compare_by_criteria(self.comparators.as_slice(), solution1, solution2)
    }
}

/// Operations on lists of solutions.
pub struct SolutionUtils;

/// The solutions whose key no earlier solution has, `ks[i]` being the key of `s[i]`.
pub open spec fn keep_first_keys(s: Seq<Solution>, ks: Seq<Seq<char>>) -> Seq<Solution>
    decreases s.len(),
{
    if s.len() == 0 {
        Seq::empty()
    } else {
        let rest = keep_first_keys(s.drop_last(), ks);
        if exists|k: int| 0 <= k < s.len() - 1 && #[trigger] ks[k] == ks[s.len() - 1] {
            rest
        } else {
            rest.push(s.last())
        }
    }
}

/// The structure identifiers of solutions.
pub open spec fn structure_ids(s: Seq<Solution>) -> Seq<Seq<char>> {
    s.map_values(|x: Solution| x.structure_identifier_spec())
}

/// The solutions whose structure identifier no earlier solution has.
pub open spec fn first_of_each_structure(s: Seq<Solution>) -> Seq<Solution> {
    keep_first_keys(s, structure_ids(s))
}

/// Every solution that keeping the first of each key keeps is one of the list.
pub proof fn lemma_keep_first_from(s: Seq<Solution>, ks: Seq<Seq<char>>)
    ensures
        forall|i: int| 0 <= i < keep_first_keys(s, ks).len()
            ==> s.contains(#[trigger] keep_first_keys(s, ks)[i]),
    decreases s.len(),
{
    if s.len() > 0 {
        lemma_keep_first_from(s.drop_last(), ks);
        let rest = keep_first_keys(s.drop_last(), ks);
        assert forall|i: int| 0 <= i < keep_first_keys(s, ks).len()
            implies s.contains(#[trigger] keep_first_keys(s, ks)[i]) by {
            if i < rest.len() {
                assert(keep_first_keys(s, ks)[i] == rest[i]);
                let x = rest[i];
                assert(s.drop_last().contains(x));
                let q = choose|q: int| 0 <= q < s.drop_last().len() && s.drop_last()[q] == x;
                assert(s[q] == x);
            } else {
                assert(keep_first_keys(s, ks)[i] == s.last());
                assert(s[s.len() - 1] == s.last());
            }
        }
    }
}

/// Keeping the first solution of each key keeps solutions of pairwise different keys,
/// the key of each solution being what `f` gives for it.
pub proof fn lemma_keep_first_distinct(s: Seq<Solution>, ks: Seq<Seq<char>>, f: spec_fn(Solution) -> Seq<char>)
    requires
        ks.len() >= s.len(),
        forall|i: int| 0 <= i < s.len() ==> ks[i] == f(#[trigger] s[i]),
    ensures
        forall|a: int, b: int| 0 <= a < b < keep_first_keys(s, ks).len()
            ==> f(#[trigger] keep_first_keys(s, ks)[a]) != f(#[trigger] keep_first_keys(s, ks)[b]),
    decreases s.len(),
{
    if s.len() > 0 {
        let d = s.drop_last();
        assert forall|i: int| 0 <= i < d.len() implies ks[i] == f(#[trigger] d[i]) by {
            assert(d[i] == s[i]);
        }
        lemma_keep_first_distinct(d, ks, f);
        lemma_keep_first_from(d, ks);
        let rest = keep_first_keys(d, ks);
        let out = keep_first_keys(s, ks);
        if !(exists|k: int| 0 <= k < s.len() - 1 && #[trigger] ks[k] == ks[s.len() - 1]) {
            assert forall|a: int, b: int| 0 <= a < b < out.len() implies f(#[trigger] out[a]) != f(#[trigger] out[b]) by {
                if b == out.len() - 1 {
                    assert(out[a] == rest[a]);
                    assert(d.contains(rest[a]));
                    let k = choose|k: int| 0 <= k < d.len() && d[k] == rest[a];
                    assert(ks[k] == f(d[k]));
                    assert(out[b] == s[s.len() - 1]);
                    assert(ks[s.len() - 1] == f(s[s.len() - 1]));
                } else {
                    assert(out[a] == rest[a]);
                    assert(out[b] == rest[b]);
                }
            }
        }
    }
}

/// Keeping the first solution of each key keeps every solution when no two keys are
/// equal.
pub proof fn lemma_keep_first_all_distinct(s: Seq<Solution>, ks: Seq<Seq<char>>)
    requires
        ks.len() >= s.len(),
        forall|a: int, b: int| 0 <= a < b < s.len() ==> #[trigger] ks[a] != #[trigger] ks[b],
    ensures
        keep_first_keys(s, ks) == s,
    decreases s.len(),
{
    if s.len() > 0 {
        lemma_keep_first_all_distinct(s.drop_last(), ks);
        assert(s.drop_last().push(s.last()) =~= s);
    }
}

/// Removing the structural duplicates of a list that has none leaves it as it is: a
/// second removal after a first removes nothing.
pub proof fn lemma_first_of_each_structure_idempotent(s: Seq<Solution>)
    ensures
        first_of_each_structure(first_of_each_structure(s)) == first_of_each_structure(s),
{
    let f = |x: Solution| x.structure_identifier_spec();
    let d = first_of_each_structure(s);
    lemma_keep_first_distinct(s, structure_ids(s), f);
    let kd = structure_ids(d);
    assert forall|a: int, b: int| 0 <= a < b < d.len() implies #[trigger] kd[a] != #[trigger] kd[b] by {
        assert(kd[a] == f(d[a]));
        assert(kd[b] == f(d[b]));
    }
    lemma_keep_first_all_distinct(d, kd);
}

/// The contents of texts.
pub open spec fn texts_of(v: Seq<String>) -> Seq<Seq<char>> {
    v.map_values(|t: String| t@)
}

/// Keeping the first solutions of a prefix, with keys given for the whole list.
proof fn lemma_keep_first_prefix(s: Seq<Solution>, ks: Seq<Seq<char>>, i: int)
    requires
        0 <= i < s.len(),
    ensures
        keep_first_keys(s.take(i + 1), ks) == if exists|k: int| 0 <= k < i && #[trigger] ks[k] == ks[i] {
            keep_first_keys(s.take(i), ks)
        } else {
            keep_first_keys(s.take(i), ks).push(s[i])
        },
{
    assert(s.take(i + 1).drop_last() =~= s.take(i));
}

/// Keeps the first solution of each key, in order, `keys[i]` being the key of
/// `solutions[i]`; returns how many were removed.
pub fn keep_first_of_each_key(solutions: &mut Vec<Solution>, keys: &Vec<String>) -> (removed: usize)
    requires
        keys@.len() == old(solutions)@.len(),
    ensures
        final(solutions)@ == keep_first_keys(old(solutions)@, texts_of(keys@)),
        removed == old(solutions)@.len() - final(solutions)@.len(),
{
    let ghost ks = texts_of(keys@);
    let initial_count = solutions.len();
    let mut src: Vec<Solution> = Vec::new();
    std::mem::swap(&mut src, solutions);
    let ghost orig = src@;
    let mut kept: Vec<Solution> = Vec::new();
    let mut i: usize = 0;
    while src.len() > 0
        invariant
            0 <= i <= orig.len(),
            orig.len() == initial_count,
            keys@.len() == orig.len(),
            ks == texts_of(keys@),
            src@ == orig.skip(to_int(i)),
            kept@ == keep_first_keys(orig.take(to_int(i)), ks),
            kept@.len() <= i,
            solutions@.len() == 0,
        decreases src@.len(),
    {
        let ghost src0 = src@;
        let solution = src.remove(0);
        proof {
            assert(src0[0] == orig[to_int(i)]);
            assert(src@ =~= orig.skip(i + 1));
        }
        let mut found = false;
        let mut j: usize = 0;
        while j < i
            invariant
                0 <= j <= i,
                i < keys@.len(),
                ks == texts_of(keys@),
                found <==> exists|k: int| 0 <= k < j && #[trigger] ks[k] == ks[to_int(i)],
            decreases i - j,
        {
            proof {
                assert(ks[to_int(j)] == keys@[to_int(j)]@);
                assert(ks[to_int(i)] == keys@[to_int(i)]@);
            }
            if crate::support::same_text(keys[j].as_str(), keys[i].as_str()) {
                found = true;
            }
            j = j + 1;
        }
        proof { lemma_keep_first_prefix(orig, ks, to_int(i)); }
        if !found {
            kept.push(solution);
        }
        i = i + 1;
    }
    proof { assert(orig.take(to_int(i)) =~= orig); }
    let removed = initial_count - kept.len();
    *solutions = kept;
    removed
}

impl SolutionUtils {
    /// Sorts solutions by a list of priorities, best first; solutions that the priorities
    /// do not tell apart keep their order.
    pub fn sort_solutions(solutions: &mut Vec<Solution>, priorities: Vec<OptimizationPriority>)
        requires
            all_integral(priorities@),
            all_measures_fit(old(solutions)@),
        ensures
            final(solutions)@.to_multiset() == old(solutions)@.to_multiset(),
            sorted_by_chain(priorities@, final(solutions)@),
            all_measures_fit(final(solutions)@),
    {
        let comparator = MultiCriteriaComparator::from_priorities(priorities);
        sort_by_criteria(solutions, comparator.comparators.as_slice());
    }

    /// Keeps the first solution of each structure, in order; returns how many were
    /// removed.
    pub fn remove_duplicates(solutions: &mut Vec<Solution>) -> (removed: usize)
        ensures
            final(solutions)@ == first_of_each_structure(old(solutions)@),
            removed == old(solutions)@.len() - final(solutions)@.len(),
    {
        let mut keys: Vec<String> = Vec::new();
        let mut i: usize = 0;
        while i < solutions.len()
            invariant
                0 <= i <= solutions@.len(),
                solutions@ == old(solutions)@,
                texts_of(keys@) == structure_ids(solutions@).take(to_int(i)),
            decreases solutions@.len() - i,
        {
            let id = solutions[i].get_structure_identifier();
            proof { assert(structure_ids(solutions@)[to_int(i)] == id@); }
            let ghost k0 = keys@;
            keys.push(id);
            proof {
                assert(texts_of(keys@) =~= texts_of(k0).push(id@));
                assert(structure_ids(solutions@).take(i + 1) =~= structure_ids(solutions@).take(to_int(i)).push(id@));
            }
            i = i + 1;
        }
        proof { assert(structure_ids(solutions@).take(to_int(i)) =~= structure_ids(solutions@)); }
        keep_first_of_each_key(solutions, &keys)
    }

    /// Keeps the first `limit` solutions.
    pub fn limit_solutions(solutions: &mut Vec<Solution>, limit: usize)
        ensures
            final(solutions)@ == if old(solutions)@.len() > limit { old(solutions)@.take(limit as int) } else { old(solutions)@ },
    {
        if solutions.len() > limit {
            solutions.truncate(limit);
        }
    }

    /// Sorts by the priorities, removes structural duplicates, and keeps at most `limit`
    /// solutions if a limit is given; returns how many duplicates were removed.
    pub fn process_solutions(solutions: &mut Vec<Solution>, priorities: Vec<OptimizationPriority>, limit: Option<usize>)
        -> (removed: usize)
        requires
            all_integral(priorities@),
            all_measures_fit(old(solutions)@),
        ensures
            exists|sorted: Seq<Solution>| {
                let deduped = first_of_each_structure(sorted);
                &&& #[trigger] sorted.to_multiset() == old(solutions)@.to_multiset()
                &&& sorted_by_chain(priorities@, sorted)
                &&& removed == sorted.len() - deduped.len()
                &&& final(solutions)@ == match limit {
                    Some(l) => if deduped.len() > l { deduped.take(l as int) } else { deduped },
                    None => deduped,
                }
            },
    {
        Self::sort_solutions(solutions, priorities);
        let ghost sorted = solutions@;
        proof {
            assert forall|i: int| 0 <= i < solutions@.len() implies (#[trigger] solutions@[i]).wf() by {}
            broadcast use vstd::seq_lib::group_to_multiset_ensures;
        }
        let removed = Self::remove_duplicates(solutions);
        if let Some(l) = limit {
            Self::limit_solutions(solutions, l);
        }
        proof {
            assert(sorted.len() == sorted.to_multiset().len());
        }
        removed
    }
}

} // verus!
