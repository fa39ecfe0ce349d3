//! Orderings of a list of items: every ordering, the first few of them, seeded shuffles,
//! and a few orderings chosen by the items' areas.

use vstd::prelude::*;
use vstd::multiset::Multiset;

verus! {

/// Generator of the orders in which panels are tried.
pub struct Arrangement;

/// A list of lists, viewed as a sequence of sequences.
pub open spec fn seqs_of<T>(v: Seq<Vec<T>>) -> Seq<Seq<T>> {
    v.map_values(|x: Vec<T>| x@)
}

/// `n!`
pub open spec fn factorial(n: nat) -> nat
    decreases n,
{
    if n == 0 { 1 } else { n * factorial((n - 1) as nat) }
}

/// The first `k` elements of `q` (all of them when `q` is shorter).
pub open spec fn first_n<A>(q: Seq<A>, k: nat) -> Seq<A> {
    if q.len() <= k { q } else { q.take(k as int) }
}

/// Each sequence of `ps` with `x` put in front.
pub open spec fn prepend_all<T>(x: T, ps: Seq<Seq<T>>) -> Seq<Seq<T>> {
    ps.map_values(|p: Seq<T>| seq![x] + p)
}

/// Every ordering of `s`, listed by the index of the item that comes first (the item at
/// index 0 of `s` first), and within that, recursively, by the orderings of the others.
pub open spec fn permutations_of<T>(s: Seq<T>) -> Seq<Seq<T>>
    decreases s.len(), s.len() + 1,
{
    if s.len() <= 1 { seq![s] } else { orderings_led_by_first(s, s.len()) }
}

/// The orderings of `s` that begin with one of its first `i` items, in that order.
pub open spec fn orderings_led_by_first<T>(s: Seq<T>, i: nat) -> Seq<Seq<T>>
    decreases s.len(), i,
{
    if i == 0 || i > s.len() {
        Seq::empty()
    } else {
        orderings_led_by_first(s, (i - 1) as nat) + prepend_all(s[i - 1], permutations_of(s.remove(i - 1)))
    }
}

/// The next state of the generator that drives the shuffles.
pub open spec fn lcg_step(seed: u64) -> u64 {
    seed.wrapping_mul(1103515245u64).wrapping_add(12345u64)
}

/// The seed that the shuffles start from.
pub open spec fn shuffle_seed() -> u64 {
    12345u64
}

/// `s` with the items at `i` and `j` exchanged.
pub open spec fn swapped<T>(s: Seq<T>, i: int, j: int) -> Seq<T> {
    s.update(i, s[j]).update(j, s[i])
}

/// One pass of the shuffle over the positions `i, i-1, ..., 1`: each step draws a new
/// seed and exchanges position `i` with the position that the seed picks among `0..=i`.
/// Gives the shuffled sequence and the last seed.
pub open spec fn shuffle_down<T>(s: Seq<T>, i: nat, seed: u64) -> (Seq<T>, u64)
    decreases i,
{
    if i == 0 || i >= s.len() {
        (s, seed)
    } else {
        let next = lcg_step(seed);
        let j = ((next as usize) as int) % ((i + 1) as int);
        shuffle_down(swapped(s, i as int, j), (i - 1) as nat, next)
    }
}

/// `count` shuffles of `s`, each continuing from the seed where the last one stopped.
pub open spec fn shuffles<T>(s: Seq<T>, count: nat, seed: u64) -> Seq<Seq<T>>
    decreases count,
{
    if count == 0 {
        Seq::empty()
    } else {
        let one = shuffle_down(s, (s.len() - 1) as nat, seed);
        seq![one.0] + shuffles(s, (count - 1) as nat, one.1)
    }
}

/// Whether item `a` comes before item `b` when items are ordered by their keys
/// (largest first when `largest_first`, else smallest first), ties by position.
pub open spec fn ranks_before(keys: Seq<u64>, largest_first: bool, a: int, b: int) -> bool {
    if keys[a] != keys[b] {
        if largest_first { keys[a] > keys[b] } else { keys[a] < keys[b] }
    } else {
        a < b
    }
}

/// `order` lists every position of `keys` once, in the order of `ranks_before`: the
/// positions of a stable sort by key.
pub open spec fn stable_key_order(keys: Seq<u64>, largest_first: bool, order: Seq<usize>) -> bool {
    &&& order.len() == keys.len()
    &&& forall|p: int| 0 <= p < order.len() ==> (#[trigger] order[p]) < keys.len()
    &&& forall|p: int, q: int| 0 <= p < q < order.len() ==>
            ranks_before(keys, largest_first, #[trigger] order[p] as int, #[trigger] order[q] as int)
}

/// The items of `s` in the order of `order`.
pub open spec fn picked<T>(s: Seq<T>, order: Seq<usize>) -> Seq<T> {
    order.map_values(|k: usize| s[k as int])
}

/// The first `t` steps of alternating the largest remaining and the smallest remaining
/// item of `d` (sorted largest first): `d[0], d[n-1], d[1], d[n-2], ...`, where the
/// smaller half has the extra item when `n` is odd.
pub open spec fn alternating_prefix<T>(d: Seq<T>, t: nat) -> Seq<T>
    decreases t,
{
    if t == 0 {
        Seq::empty()
    } else {
        let k = (t - 1) as int;
        let n = d.len() as int;
        let step = if k < n / 2 { seq![d[k], d[n - 1 - k]] } else { seq![d[n - 1 - k]] };
        alternating_prefix(d, (t - 1) as nat) + step
    }
}

/// Large and small items alternated, for `d` sorted largest first.
pub open spec fn alternating<T>(d: Seq<T>) -> Seq<T> {
    alternating_prefix(d, (d.len() - d.len() / 2) as nat)
}

/// The orders that the area heuristics give, at most `max` of them: largest first,
/// smallest first, large and small alternated, then shuffles of the list.
pub open spec fn heuristic_orders<T>(s: Seq<T>, down: Seq<usize>, up: Seq<usize>, max: nat) -> Seq<Seq<T>> {
    let d = picked(s, down);
    let base = seq![d, picked(s, up), alternating(d)];
    if max <= 3 { base.take(max as int) } else { base + shuffles(s, (max - 3) as nat, shuffle_seed()) }
}

/// `keys` holds, for each item of `s`, a value that `area_fn` can give for it.
pub open spec fn area_keys<T, F: Fn(&T) -> u64>(area_fn: F, s: Seq<T>, keys: Seq<u64>) -> bool {
    &&& keys.len() == s.len()
    &&& forall|k: int| 0 <= k < s.len() ==> call_ensures(area_fn, (&s[k],), #[trigger] keys[k])
}

proof fn lemma_remove_len<T>(s: Seq<T>, i: int)
    requires
        0 <= i < s.len(),
    ensures
        s.remove(i).len() == s.len() - 1,
{
    s.remove_ensures(i);
}

/// Listing the orderings led by the first `i` items gives `i * (n-1)!` of them.
proof fn lemma_led_count<T>(s: Seq<T>, i: nat)
    requires
        s.len() >= 2,
        i <= s.len(),
    ensures
        orderings_led_by_first(s, i).len() == i * factorial((s.len() - 1) as nat),
    decreases s.len(), i,
{
    if i > 0 {
        lemma_led_count(s, (i - 1) as nat);
        lemma_remove_len(s, i - 1);
        lemma_permutations_count(s.remove(i - 1));
        let f = factorial((s.len() - 1) as nat);
        let rest = s.remove(i - 1);
        assert(permutations_of(rest).len() == f);
        assert(prepend_all(s[i - 1], permutations_of(rest)).len() == f);
        assert(orderings_led_by_first(s, i) == orderings_led_by_first(s, (i - 1) as nat)
            + prepend_all(s[i - 1], permutations_of(rest)));
        assert((i - 1) * f + f == i * f) by (nonlinear_arith);
    } else {
        assert(orderings_led_by_first(s, i).len() == 0);
        assert(i * factorial((s.len() - 1) as nat) == 0) by (nonlinear_arith)
            requires i == 0;
    }
}

/// There are `n!` orderings of `n` items.
pub proof fn lemma_permutations_count<T>(s: Seq<T>)
    ensures
        permutations_of(s).len() == factorial(s.len()),
    decreases s.len(), s.len() + 1,
{
    if s.len() >= 2 {
        lemma_led_count(s, s.len());
    } else {
        assert(factorial(0) == 1);
        assert(factorial(1) == 1 * factorial(0));
    }
}

proof fn lemma_prepend_multiset<T>(a: T, q: Seq<T>)
    ensures
        (seq![a] + q).to_multiset() == q.to_multiset().insert(a),
        (seq![a] + q).len() == q.len() + 1,
{
    broadcast use vstd::seq_lib::group_to_multiset_ensures;
    assert(seq![a] + q =~= q.insert(0, a));
}

proof fn lemma_multiset_put_back<T>(s: Seq<T>, i: int)
    requires
        0 <= i < s.len(),
    ensures
        s.remove(i).to_multiset().insert(s[i]) == s.to_multiset(),
{
    broadcast use vstd::seq_lib::group_to_multiset_ensures;
    broadcast use vstd::multiset::group_multiset_axioms;
    assert(s.contains(s[i]));
    assert(s.to_multiset().count(s[i]) > 0);
    assert(s.to_multiset().remove(s[i]).insert(s[i]) =~= s.to_multiset());
}

proof fn lemma_led_rearrange<T>(s: Seq<T>, i: nat)
    requires
        s.len() >= 2,
        i <= s.len(),
    ensures
        forall|k: int| 0 <= k < orderings_led_by_first(s, i).len() ==>
            (#[trigger] orderings_led_by_first(s, i)[k]).to_multiset() == s.to_multiset(),
    decreases s.len(), i,
{
    if i > 0 {
        lemma_led_rearrange(s, (i - 1) as nat);
        let rest = s.remove(i - 1);
        lemma_remove_len(s, i - 1);
        lemma_permutations_rearrange(rest);
        lemma_multiset_put_back(s, i - 1);
        let a = orderings_led_by_first(s, (i - 1) as nat);
        let b = prepend_all(s[i - 1], permutations_of(rest));
        assert forall|k: int| 0 <= k < orderings_led_by_first(s, i).len() implies
            (#[trigger] orderings_led_by_first(s, i)[k]).to_multiset() == s.to_multiset() by {
            if k >= a.len() {
                let q = permutations_of(rest)[k - a.len()];
                assert(orderings_led_by_first(s, i)[k] == seq![s[i - 1]] + q);
                lemma_prepend_multiset(s[i - 1], q);
            } else {
                assert(orderings_led_by_first(s, i)[k] == a[k]);
            }
        }
    }
}

/// Every ordering holds the same items as the list, as often.
pub proof fn lemma_permutations_rearrange<T>(s: Seq<T>)
    ensures
        forall|k: int| 0 <= k < permutations_of(s).len() ==>
            (#[trigger] permutations_of(s)[k]).to_multiset() == s.to_multiset(),
    decreases s.len(), s.len() + 1,
{
    if s.len() >= 2 {
        lemma_led_rearrange(s, s.len());
        assert(permutations_of(s) == orderings_led_by_first(s, s.len()));
    } else {
        assert(permutations_of(s) == seq![s]);
    }
}

proof fn lemma_led_contains_branch<T>(s: Seq<T>, j: int, i: nat, m: int)
    requires
        s.len() >= 2,
        i <= s.len(),
        0 <= j < i,
        0 <= m < permutations_of(s.remove(j)).len(),
    ensures
        orderings_led_by_first(s, i).contains(seq![s[j]] + permutations_of(s.remove(j))[m]),
    decreases i,
{
    let a = orderings_led_by_first(s, (i - 1) as nat);
    let e = seq![s[j]] + permutations_of(s.remove(j))[m];
    if j == i - 1 {
        assert(orderings_led_by_first(s, i)[a.len() + m] == e);
    } else {
        lemma_led_contains_branch(s, j, (i - 1) as nat, m);
        let k = choose|k: int| 0 <= k < a.len() && a[k] == e;
        assert(orderings_led_by_first(s, i)[k] == e);
    }
}

/// Every rearrangement of the items is among the orderings.
pub proof fn lemma_permutations_complete<T>(s: Seq<T>, p: Seq<T>)
    requires
        p.to_multiset() == s.to_multiset(),
    ensures
        permutations_of(s).contains(p),
    decreases s.len(),
{
    broadcast use vstd::seq_lib::group_to_multiset_ensures;
    broadcast use vstd::multiset::group_multiset_axioms;
    assert(p.to_multiset().len() == p.len());
    assert(s.to_multiset().len() == s.len());
    if s.len() == 0 {
        assert(p.len() == 0);
        assert(p =~= s);
        assert(permutations_of(s)[0] == s);
    } else if s.len() == 1 {
        assert(p.len() == 1);
        assert(p.to_multiset().count(p[0]) > 0);
        assert(s.to_multiset().count(p[0]) > 0);
        assert(s.contains(p[0]));
        assert(p =~= s);
        assert(permutations_of(s)[0] == s);
    } else {
        assert(p.len() == s.len());
        assert(p.contains(p[0]));
        assert(s.to_multiset().count(p[0]) > 0);
        assert(s.contains(p[0]));
        let j = choose|j: int| 0 <= j < s.len() && s[j] == p[0];
        let rest = s.remove(j);
        let q = p.drop_first();
        assert(p =~= q.insert(0, p[0]));
        assert(q.to_multiset() =~= p.to_multiset().remove(p[0]));
        assert(q.to_multiset() == rest.to_multiset());
        lemma_remove_len(s, j);
        lemma_permutations_complete(rest, q);
        let m = choose|m: int| 0 <= m < permutations_of(rest).len() && permutations_of(rest)[m] == q;
        assert(seq![s[j]] + q =~= p);
        lemma_led_contains_branch(s, j, s.len(), m);
    }
}

proof fn lemma_remove_no_duplicates<T>(s: Seq<T>, i: int)
    requires
        0 <= i < s.len(),
        s.no_duplicates(),
    ensures
        s.remove(i).no_duplicates(),
        !s.remove(i).contains(s[i]),
{
    s.remove_ensures(i);
    let r = s.remove(i);
    assert forall|a: int, b: int| 0 <= a < r.len() && 0 <= b < r.len() && a != b implies r[a] != r[b] by {
        let sa = if a < i { a } else { a + 1 };
        let sb = if b < i { b } else { b + 1 };
        assert(r[a] == s[sa]);
        assert(r[b] == s[sb]);
    }
    if r.contains(s[i]) {
        let a = choose|a: int| 0 <= a < r.len() && r[a] == s[i];
        let sa = if a < i { a } else { a + 1 };
        assert(r[a] == s[sa]);
    }
}

proof fn lemma_led_distinct<T>(s: Seq<T>, i: nat)
    requires
        s.len() >= 2,
        i <= s.len(),
        s.no_duplicates(),
    ensures
        orderings_led_by_first(s, i).no_duplicates(),
        forall|k: int| 0 <= k < orderings_led_by_first(s, i).len() ==>
            (#[trigger] orderings_led_by_first(s, i)[k]).len() > 0
            && exists|j: int| 0 <= j < i && orderings_led_by_first(s, i)[k][0] == s[j],
    decreases s.len(), i,
{
    if i > 0 {
        lemma_led_distinct(s, (i - 1) as nat);
        let rest = s.remove(i - 1);
        lemma_remove_len(s, i - 1);
        lemma_remove_no_duplicates(s, i - 1);
        lemma_permutations_distinct(rest);
        let a = orderings_led_by_first(s, (i - 1) as nat);
        let ps = permutations_of(rest);
        let b = prepend_all(s[i - 1], ps);
        let c = orderings_led_by_first(s, i);
        assert(c == a + b);
        assert forall|k: int| 0 <= k < c.len() implies
            (#[trigger] c[k]).len() > 0 && exists|j: int| 0 <= j < i && c[k][0] == s[j] by {
            if k >= a.len() {
                assert(c[k] == seq![s[i - 1]] + ps[k - a.len()]);
                assert(c[k][0] == s[i - 1]);
            } else {
                assert(c[k] == a[k]);
                let j = choose|j: int| 0 <= j < i - 1 && a[k][0] == s[j];
                assert(c[k][0] == s[j]);
            }
        }
        assert forall|x: int, y: int| 0 <= x < c.len() && 0 <= y < c.len() && x != y implies c[x] != c[y] by {
            if x >= a.len() && y >= a.len() {
                assert(c[x] == seq![s[i - 1]] + ps[x - a.len()]);
                assert(c[y] == seq![s[i - 1]] + ps[y - a.len()]);
                assert(c[x].drop_first() =~= ps[x - a.len()]);
                assert(c[y].drop_first() =~= ps[y - a.len()]);
            } else if x < a.len() && y < a.len() {
                assert(c[x] == a[x]);
                assert(c[y] == a[y]);
            } else {
                let (u, v) = if x < a.len() { (x, y) } else { (y, x) };
                assert(c[u] == a[u]);
                let j = choose|j: int| 0 <= j < i - 1 && a[u][0] == s[j];
                assert(c[v] == seq![s[i - 1]] + ps[v - a.len()]);
                assert(c[v][0] == s[i - 1]);
                assert(s[j] != s[i - 1]);
            }
        }
    }
}

/// Items that are all different give orderings that are all different.
pub proof fn lemma_permutations_distinct<T>(s: Seq<T>)
    requires
        s.no_duplicates(),
    ensures
        permutations_of(s).no_duplicates(),
    decreases s.len(), s.len() + 1,
{
    if s.len() >= 2 {
        lemma_led_distinct(s, s.len());
    }
}

proof fn lemma_led_prefix<T>(s: Seq<T>, i: nat, j: nat)
    requires
        i <= j <= s.len(),
    ensures
        orderings_led_by_first(s, i).len() <= orderings_led_by_first(s, j).len(),
        orderings_led_by_first(s, j).take(orderings_led_by_first(s, i).len() as int) == orderings_led_by_first(s, i),
    decreases j,
{
    if i < j {
        lemma_led_prefix(s, i, (j - 1) as nat);
        let a = orderings_led_by_first(s, (j - 1) as nat);
        let c = orderings_led_by_first(s, j);
        assert(c == a + prepend_all(s[j - 1], permutations_of(s.remove(j - 1))));
        assert(c.take(a.len() as int) =~= a);
        assert(c.take(orderings_led_by_first(s, i).len() as int) =~= a.take(orderings_led_by_first(s, i).len() as int));
    } else {
        assert(orderings_led_by_first(s, j).take(orderings_led_by_first(s, j).len() as int) =~= orderings_led_by_first(s, j));
    }
}

fn copy_items<T: Copy>(list: &Vec<T>) -> (r: Vec<T>)
    ensures
        r@ == list@,
{
    let mut r: Vec<T> = Vec::new();
    let mut k: usize = 0;
    while k < list.len()
        invariant
            k <= list.len(),
            r@ == list@.take(k as int),
        decreases list.len() - k,
    {
        r.push(list[k]);
        k = k + 1;
        assert(r@ =~= list@.take(k as int));
    }
    assert(list@.take(k as int) =~= list@);
    r
}

fn copy_without<T: Copy>(list: &Vec<T>, i: usize) -> (r: Vec<T>)
    requires
        i < list.len(),
    ensures
        r@ == list@.remove(i as int),
{
    let mut r: Vec<T> = Vec::new();
    let mut k: usize = 0;
    while k < list.len()
        invariant
            k <= list.len(),
            i < list.len(),
            k <= i ==> r@ == list@.take(k as int),
            k > i ==> r@ == list@.take(i as int) + list@.subrange(i + 1, k as int),
        decreases list.len() - k,
    {
        if k != i {
            r.push(list[k]);
        }
        k = k + 1;
        if k <= i {
            assert(r@ =~= list@.take(k as int));
        } else {
            assert(r@ =~= list@.take(i as int) + list@.subrange(i + 1, k as int));
        }
    }
    assert(r@ =~= list@.remove(i as int));
    r
}

fn with_first<T: Copy>(x: T, p: &Vec<T>) -> (r: Vec<T>)
    ensures
        r@ == seq![x] + p@,
{
    let mut r: Vec<T> = Vec::new();
    r.push(x);
    let mut k: usize = 0;
    while k < p.len()
        invariant
            k <= p.len(),
            r@ == seq![x] + p@.take(k as int),
        decreases p.len() - k,
    {
        r.push(p[k]);
        k = k + 1;
        assert(r@ =~= seq![x] + p@.take(k as int));
    }
    assert(p@.take(k as int) =~= p@);
    r
}

/// The first `limit` orderings of `list`, in the order of `permutations_of`.
fn orderings_upto<T: Copy>(list: &Vec<T>, limit: usize) -> (res: Vec<Vec<T>>)
    ensures
        seqs_of(res@) == first_n(permutations_of(list@), limit as nat),
    decreases list.len(),
{
    if limit == 0 {
        let res: Vec<Vec<T>> = Vec::new();
        assert(seqs_of(res@) =~= first_n(permutations_of(list@), 0));
        return res;
    }
    if list.len() <= 1 {
        let mut res: Vec<Vec<T>> = Vec::new();
        res.push(copy_items(list));
        assert(permutations_of(list@) == seq![list@]);
        assert(seqs_of(res@) =~= first_n(permutations_of(list@), limit as nat));
        return res;
    }
    let n = list.len();
    let ghost s = list@;
    let mut result: Vec<Vec<T>> = Vec::new();
    let mut i: usize = 0;
    assert(seqs_of(result@) =~= first_n(orderings_led_by_first(s, 0), limit as nat));
    while i < n && result.len() < limit
        invariant
            n == list.len(),
            s == list@,
            n >= 2,
            i <= n,
            limit > 0,
            seqs_of(result@) == first_n(orderings_led_by_first(s, i as nat), limit as nat),
        decreases n - i,
    {
        let ghost a = orderings_led_by_first(s, i as nat);
        assert(seqs_of(result@).len() == result@.len());
        assert(seqs_of(result@) == a);
        let rest = copy_without(list, i);
        let k = limit - result.len();
        let sub = orderings_upto(&rest, k);
        let ghost ps = permutations_of(rest@);
        let ghost r0 = seqs_of(result@);
        let x = list[i];
        let mut m: usize = 0;
        while m < sub.len()
            invariant
                m <= sub.len(),
                seqs_of(sub@) == first_n(ps, k as nat),
                seqs_of(result@) == r0 + prepend_all(x, seqs_of(sub@).take(m as int)),
            decreases sub.len() - m,
        {
            let p = with_first(x, &sub[m]);
            let ghost before = result@;
            result.push(p);
            m = m + 1;
            assert(seqs_of(result@) =~= seqs_of(before).push(p@));
            assert(seqs_of(sub@)[m - 1] == sub@[m - 1]@);
            assert(prepend_all(x, seqs_of(sub@).take(m as int)) =~= prepend_all(x, seqs_of(sub@).take(m - 1)).push(seq![x] + sub@[m - 1]@));
        }
        assert(seqs_of(sub@).take(m as int) =~= seqs_of(sub@));
        proof {
            lemma_remove_len(s, i as int);
            let b = prepend_all(s[i as int], ps);
            let c = orderings_led_by_first(s, (i + 1) as nat);
            assert(c == a + b);
            assert(x == s[i as int]);
            if ps.len() <= k {
                assert(first_n(ps, k as nat) == ps);
                assert(seqs_of(result@) =~= c);
                assert(first_n(c, limit as nat) == c);
            } else {
                assert(first_n(ps, k as nat) == ps.take(k as int));
                assert(prepend_all(x, ps.take(k as int)) =~= b.take(k as int));
                assert(c.take(limit as int) =~= a + b.take(k as int));
                assert(seqs_of(result@) =~= first_n(c, limit as nat));
            }
        }
        i = i + 1;
    }
    proof {
        assert(permutations_of(s) == orderings_led_by_first(s, n as nat));
        if i < n {
            let a = orderings_led_by_first(s, i as nat);
            lemma_led_prefix(s, i as nat, n as nat);
            let c = orderings_led_by_first(s, n as nat);
            assert(seqs_of(result@).len() == result@.len());
            assert(a.len() >= limit);
            assert(c.take(limit as int) =~= c.take(a.len() as int).take(limit as int));
            if a.len() == limit {
                assert(a.take(limit as int) =~= a);
            }
        }
    }
    result
}

proof fn lemma_swapped_rearrange<T>(s: Seq<T>, i: int, j: int)
    requires
        0 <= i < s.len(),
        0 <= j < s.len(),
    ensures
        swapped(s, i, j).to_multiset() == s.to_multiset(),
        swapped(s, i, j).len() == s.len(),
{
    broadcast use vstd::seq_lib::group_to_multiset_ensures;
    broadcast use vstd::multiset::group_multiset_axioms;
    let t = s.update(i, s[j]);
    assert(s.to_multiset().count(s[i]) > 0) by {
        assert(s.contains(s[i]));
    }
    assert(t.to_multiset() == s.to_multiset().remove(s[i]).insert(s[j]));
    assert(t[j] == s[j]);
    assert(t.to_multiset().count(s[j]) > 0) by {
        assert(t.contains(t[j]));
    }
    assert(swapped(s, i, j).to_multiset() == t.to_multiset().remove(s[j]).insert(s[i]));
    assert(s.to_multiset().remove(s[i]).insert(s[j]).remove(s[j]).insert(s[i]) =~= s.to_multiset());
}

proof fn lemma_shuffle_down_rearrange<T>(s: Seq<T>, i: nat, seed: u64)
    ensures
        shuffle_down(s, i, seed).0.to_multiset() == s.to_multiset(),
        shuffle_down(s, i, seed).0.len() == s.len(),
    decreases i,
{
    if i > 0 && i < s.len() {
        let next = lcg_step(seed);
        let j = ((next as usize) as int) % ((i + 1) as int);
        lemma_swapped_rearrange(s, i as int, j);
        lemma_shuffle_down_rearrange(swapped(s, i as int, j), (i - 1) as nat, next);
    }
}

/// Every shuffle holds the same items as the list, as often.
pub proof fn lemma_shuffles_rearrange<T>(s: Seq<T>, count: nat, seed: u64)
    ensures
        shuffles(s, count, seed).len() == count,
        forall|k: int| 0 <= k < count ==> (#[trigger] shuffles(s, count, seed)[k]).to_multiset() == s.to_multiset(),
    decreases count,
{
    if count > 0 {
        let one = shuffle_down(s, (s.len() - 1) as nat, seed);
        lemma_shuffle_down_rearrange(s, (s.len() - 1) as nat, seed);
        lemma_shuffles_rearrange(s, (count - 1) as nat, one.1);
        let rest = shuffles(s, (count - 1) as nat, one.1);
        assert forall|k: int| 0 <= k < count implies (#[trigger] shuffles(s, count, seed)[k]).to_multiset() == s.to_multiset() by {
            if k > 0 {
                assert(shuffles(s, count, seed)[k] == rest[k - 1]);
            }
        }
    }
}

proof fn lemma_factorial_grows(a: nat, b: nat)
    requires
        a <= b,
    ensures
        1 <= factorial(a) <= factorial(b),
    decreases b,
{
    if b > 0 {
        if a < b {
            lemma_factorial_grows(a, (b - 1) as nat);
        } else {
            lemma_factorial_grows((b - 1) as nat, (b - 1) as nat);
        }
        let f = factorial((b - 1) as nat);
        assert(f <= b * f) by (nonlinear_arith)
            requires b >= 1, f >= 1;
    }
}

proof fn lemma_ranks_transitive(keys: Seq<u64>, lf: bool, a: int, b: int, c: int)
    requires
        ranks_before(keys, lf, a, b),
        ranks_before(keys, lf, b, c),
    ensures
        ranks_before(keys, lf, a, c),
{
}

fn ranks_first(keys: &Vec<u64>, largest_first: bool, a: usize, b: usize) -> (r: bool)
    requires
        a < keys.len(),
        b < keys.len(),
    ensures
        r == ranks_before(keys@, largest_first, a as int, b as int),
{
    if keys[a] != keys[b] {
        if largest_first { keys[a] > keys[b] } else { keys[a] < keys[b] }
    } else {
        a < b
    }
}

/// The positions of `keys` in the order of a stable sort by key.
fn stable_order(keys: &Vec<u64>, largest_first: bool) -> (order: Vec<usize>)
    ensures
        stable_key_order(keys@, largest_first, order@),
{
    let n = keys.len();
    let mut out: Vec<usize> = Vec::new();
    let mut i: usize = 0;
    while i < n
        invariant
            n == keys.len(),
            i <= n,
            out.len() == i,
            forall|p: int| 0 <= p < out.len() ==> (#[trigger] out@[p]) < i,
            forall|p: int, q: int| 0 <= p < q < out.len() ==>
                ranks_before(keys@, largest_first, #[trigger] out@[p] as int, #[trigger] out@[q] as int),
        decreases n - i,
    {
        let mut j: usize = 0;
        loop
            invariant
                j <= out.len(),
                i < n,
                n == keys.len(),
                forall|p: int| 0 <= p < out.len() ==> (#[trigger] out@[p]) < i,
                forall|q: int| 0 <= q < j ==> !ranks_before(keys@, largest_first, i as int, #[trigger] out@[q] as int),
            ensures
                j <= out.len(),
                forall|q: int| 0 <= q < j ==> !ranks_before(keys@, largest_first, i as int, #[trigger] out@[q] as int),
                j < out.len() ==> ranks_before(keys@, largest_first, i as int, out@[j as int] as int),
            decreases out.len() - j,
        {
            if j >= out.len() {
                break;
            }
            if ranks_first(keys, largest_first, i, out[j]) {
                break;
            }
            j = j + 1;
        }
        let ghost out0 = out@;
        out.insert(j, i);
        proof {
            assert forall|p: int| 0 <= p < out.len() implies (#[trigger] out@[p]) < i + 1 by {
                if p < j {
                    assert(out@[p] == out0[p]);
                } else if p > j {
                    assert(out@[p] == out0[p - 1]);
                }
            }
            assert forall|p: int, q: int| 0 <= p < q < out.len() implies
                ranks_before(keys@, largest_first, #[trigger] out@[p] as int, #[trigger] out@[q] as int) by {
                if q < j {
                    assert(out@[p] == out0[p]);
                    assert(out@[q] == out0[q]);
                } else if q == j {
                    assert(out@[p] == out0[p]);
                    assert(!ranks_before(keys@, largest_first, i as int, out0[p] as int));
                } else if p < j {
                    assert(out@[p] == out0[p]);
                    assert(out@[q] == out0[q - 1]);
                } else if p == j {
                    assert(out@[q] == out0[q - 1]);
                    if q - 1 > j {
                        assert(ranks_before(keys@, largest_first, out0[j as int] as int, out0[q - 1] as int));
                        lemma_ranks_transitive(keys@, largest_first, i as int, out0[j as int] as int, out0[q - 1] as int);
                    }
                } else {
                    assert(out@[p] == out0[p - 1]);
                    assert(out@[q] == out0[q - 1]);
                }
            }
        }
        i = i + 1;
    }
    out
}

fn pick<T: Copy>(list: &Vec<T>, order: &Vec<usize>) -> (r: Vec<T>)
    requires
        forall|p: int| 0 <= p < order.len() ==> (#[trigger] order@[p]) < list.len(),
    ensures
        r@ == picked(list@, order@),
{
    let mut r: Vec<T> = Vec::new();
    let mut k: usize = 0;
    while k < order.len()
        invariant
            k <= order.len(),
            forall|p: int| 0 <= p < order.len() ==> (#[trigger] order@[p]) < list.len(),
            r@ == picked(list@, order@.take(k as int)),
        decreases order.len() - k,
    {
        r.push(list[order[k]]);
        k = k + 1;
        assert(r@ =~= picked(list@, order@.take(k as int)));
    }
    assert(order@.take(k as int) =~= order@);
    r
}

fn alternate<T: Copy>(d: &Vec<T>) -> (r: Vec<T>)
    ensures
        r@ == alternating(d@),
{
    let n = d.len();
    let mid = n / 2;
    let mut r: Vec<T> = Vec::new();
    let mut t: usize = 0;
    while t < n - mid
        invariant
            n == d.len(),
            mid == n / 2,
            t <= n - mid,
            r@ == alternating_prefix(d@, t as nat),
        decreases n - mid - t,
    {
        let ghost r0 = r@;
        if t < mid {
            r.push(d[t]);
        }
        r.push(d[n - 1 - t]);
        t = t + 1;
        assert(r@ =~= alternating_prefix(d@, t as nat));
    }
    r
}

fn shuffle_once<T: Copy>(list: &Vec<T>, seed: u64) -> (r: (Vec<T>, u64))
    requires
        list.len() >= 1,
    ensures
        (r.0@, r.1) == shuffle_down(list@, (list@.len() - 1) as nat, seed),
{
    let mut perm = copy_items(list);
    let mut state = seed;
    let mut i: usize = list.len() - 1;
    while i >= 1
        invariant
            perm.len() == list.len(),
            i < list.len(),
            shuffle_down(perm@, i as nat, state) == shuffle_down(list@, (list@.len() - 1) as nat, seed),
        decreases i,
    {
        state = state.wrapping_mul(1103515245u64).wrapping_add(12345u64);
        let j = (state as usize) % (i + 1);
        let a = perm[i];
        let b = perm[j];
        perm.set(i, b);
        perm.set(j, a);
        i = i - 1;
    }
    (perm, state)
}

/// The limited permutations of a list are the first of all its permutations, in the
/// same order: as many as were asked for, or all `n!` of them when that is fewer, and
/// then every permutation.
pub proof fn lemma_limited_permutations_prefix<T>(s: Seq<T>, max_permutations: nat)
    ensures
        first_n(permutations_of(s), max_permutations).len()
            == if max_permutations < factorial(s.len()) { max_permutations } else { factorial(s.len()) },
        first_n(permutations_of(s), max_permutations)
            == permutations_of(s).take(first_n(permutations_of(s), max_permutations).len() as int),
        max_permutations >= factorial(s.len()) ==> first_n(permutations_of(s), max_permutations) == permutations_of(s),
{
    lemma_permutations_count(s);
    if permutations_of(s).len() <= max_permutations {
        assert(permutations_of(s).take(permutations_of(s).len() as int) =~= permutations_of(s));
    }
}

impl Arrangement {
    /// Every ordering of `list`: `n!` of them, led by the first item, then by the
    /// second, and so on; an empty list has one ordering, itself.
    pub fn generate_permutations<T: Copy>(list: Vec<T>) -> (res: Vec<Vec<T>>)
        requires
            factorial(list@.len()) <= usize::MAX,
        ensures
            seqs_of(res@) == permutations_of(list@),
    {
        proof {
            lemma_permutations_count(list@);
        }
        orderings_upto(&list, usize::MAX)
    }

    /// The first `max_permutations` orderings of `list`, in the order of
    /// `generate_permutations`; none for an empty list.
    pub fn generate_limited_permutations<T: Copy>(list: Vec<T>, max_permutations: usize) -> (res: Vec<Vec<T>>)
        ensures
            list@.len() == 0 ==> res@.len() == 0,
            list@.len() > 0 ==> seqs_of(res@) == first_n(permutations_of(list@), max_permutations as nat),
    {
        if list.len() == 0 || max_permutations == 0 {
            let res: Vec<Vec<T>> = Vec::new();
            assert(seqs_of(res@) =~= first_n(permutations_of(list@), 0));
            return res;
        }
        orderings_upto(&list, max_permutations)
    }

    /// `count` shuffles of `list`, the first from a fixed seed and each later one from
    /// where the last one stopped; none for an empty list.
    pub fn generate_random_permutations<T: Copy>(list: Vec<T>, count: usize) -> (res: Vec<Vec<T>>)
        ensures
            list@.len() == 0 ==> res@.len() == 0,
            list@.len() > 0 ==> seqs_of(res@) == shuffles(list@, count as nat, shuffle_seed()),
    {
        let mut result: Vec<Vec<T>> = Vec::new();
        if list.len() == 0 || count == 0 {
            assert(seqs_of(result@) =~= shuffles(list@, 0, shuffle_seed()));
            return result;
        }
        let mut seed: u64 = 12345;
        let mut c: usize = 0;
        assert(seqs_of(result@) =~= Seq::<Seq<T>>::empty());
        while c < count
            invariant
                c <= count,
                list.len() > 0,
                seqs_of(result@) + shuffles(list@, (count - c) as nat, seed) == shuffles(list@, count as nat, shuffle_seed()),
            decreases count - c,
        {
            let ghost before = result@;
            let (p, next) = shuffle_once(&list, seed);
            proof {
                let one = shuffle_down(list@, (list@.len() - 1) as nat, seed);
                assert(shuffles(list@, (count - c) as nat, seed) == seq![one.0] + shuffles(list@, (count - c - 1) as nat, one.1));
            }
            result.push(p);
            c = c + 1;
            assert(seqs_of(result@) =~= seqs_of(before).push(p@));
            assert(seqs_of(result@) + shuffles(list@, (count - c) as nat, next) =~= seqs_of(before) + (seq![p@] + shuffles(list@, (count - c) as nat, next)));
            seed = next;
        }
        assert(seqs_of(result@) + shuffles(list@, 0, seed) =~= seqs_of(result@));
        result
    }

    /// Orders chosen by the items' areas, at most `max_permutations` of them: largest
    /// area first, smallest area first (both stable), large and small alternated, then
    /// shuffles of the list; none for an empty list. Each area is taken once per item.
    pub fn generate_heuristic_permutations<T: Copy, F: Fn(&T) -> u64>(
        list: Vec<T>,
        area_fn: F,
        max_permutations: usize,
    ) -> (res: Vec<Vec<T>>)
        requires
            forall|x: T| call_requires(area_fn, (&x,)),
        ensures
            list@.len() == 0 || max_permutations == 0 ==> res@.len() == 0,
            list@.len() > 0 && max_permutations > 0 ==> exists|keys: Seq<u64>, down: Seq<usize>, up: Seq<usize>|
                #![trigger area_keys(area_fn, list@, keys), heuristic_orders(list@, down, up, max_permutations as nat)]
                area_keys(area_fn, list@, keys)
                && stable_key_order(keys, true, down)
                && stable_key_order(keys, false, up)
                && seqs_of(res@) == heuristic_orders(list@, down, up, max_permutations as nat),
    {
        let mut result: Vec<Vec<T>> = Vec::new();
        if list.len() == 0 || max_permutations == 0 {
            return result;
        }
        let mut keys: Vec<u64> = Vec::new();
        let mut k: usize = 0;
        while k < list.len()
            invariant
                k <= list.len(),
                keys.len() == k,
                forall|x: T| call_requires(area_fn, (&x,)),
                forall|q: int| 0 <= q < k ==> call_ensures(area_fn, (&list@[q],), #[trigger] keys@[q]),
            decreases list.len() - k,
        {
            let a = area_fn(&list[k]);
            keys.push(a);
            k = k + 1;
        }
        let down = stable_order(&keys, true);
        let up = stable_order(&keys, false);
        let ghost target = heuristic_orders(list@, down@, up@, max_permutations as nat);
        let ghost d = picked(list@, down@);
        let largest = pick(&list, &down);
        let mixed = alternate(&largest);
        result.push(largest);
        if max_permutations >= 2 {
            result.push(pick(&list, &up));
        }
        if max_permutations >= 3 {
            result.push(mixed);
        }
        if max_permutations > 3 {
            let mut extra = Self::generate_random_permutations(list, max_permutations - 3);
            let ghost base = seqs_of(result@);
            let ghost more = seqs_of(extra@);
            result.append(&mut extra);
            assert(seqs_of(result@) =~= base + more);
        }
        proof {
            let base = seq![d, picked(list@, up@), alternating(d)];
            if max_permutations <= 3 {
                assert(target == base.take(max_permutations as int));
            }
        }
        assert(seqs_of(result@) =~= target);
        assert(area_keys(area_fn, list@, keys@));
        result
    }

    /// `n!`, or `None` when `n` is over 20 or `n!` does not fit in `usize`.
    pub fn factorial(n: usize) -> (r: Option<usize>)
        ensures
            r == (if n <= 20 && factorial(n as nat) <= usize::MAX { Some(factorial(n as nat) as usize) } else { None::<usize> }),
    {
        if n > 20 {
            return None;
        }
        assert(factorial(0) == 1);
        assert(factorial(1) == 1 * factorial(0));
        if n <= 1 {
            return Some(1);
        }
        let mut result: usize = 1;
        let mut i: usize = 2;
        while i <= n
            invariant
                2 <= i <= n + 1,
                n <= 20,
                result == factorial((i - 1) as nat),
            decreases n + 1 - i,
        {
            assert(result * i == i * result) by (nonlinear_arith);
            match result.checked_mul(i) {
                Some(v) => {
                    assert(factorial(i as nat) == i * factorial((i - 1) as nat));
                    result = v;
                }
                None => {
                    proof {
                        assert(factorial(i as nat) == i * factorial((i - 1) as nat));
                        lemma_factorial_grows(i as nat, n as nat);
                    }
                    return None;
                }
            }
            i = i + 1;
        }
        Some(result)
    }

    /// The number of orderings of `list_size` items, as `factorial` gives it.
    pub fn estimate_permutation_count(list_size: usize) -> (r: Option<usize>)
        ensures
            r == (if list_size <= 20 && factorial(list_size as nat) <= usize::MAX { Some(factorial(list_size as nat) as usize) } else { None::<usize> }),
    {
        Self::factorial(list_size)
    }

    /// Whether all orderings of `list_size` items can be counted and number at most
    /// `max_reasonable_count`.
    pub fn is_full_generation_reasonable(list_size: usize, max_reasonable_count: usize) -> (r: bool)
        ensures
            r == (list_size <= 20 && factorial(list_size as nat) <= max_reasonable_count),
    {
        match Self::estimate_permutation_count(list_size) {
            Some(count) => count <= max_reasonable_count,
            None => false,
        }
    }
}

} // verus!
