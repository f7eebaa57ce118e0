//! Combinatorial input generation: the full Cartesian product of a fixed
//! ordered set of boundary values across `k` tuple positions.

use vstd::arithmetic::div_mod::{
    lemma_div_basics_2, lemma_div_denominator, lemma_div_is_ordered, lemma_div_pos_is_pos,
    lemma_fundamental_div_mod, lemma_fundamental_div_mod_converse, lemma_mod_bound,
};
use vstd::arithmetic::mul::lemma_mul_inequality;
use vstd::prelude::*;

verus! {

broadcast use vstd::arithmetic::mul::lemma_mul_is_commutative;

/// `n` raised to the power `k`: the number of `k`-tuples drawn from a set of
/// `n` boundary values.
pub open spec fn count(n: nat, k: nat) -> nat
    decreases k,
{
    if k == 0 {
        1
    } else {
        n * count(n, (k - 1) as nat)
    }
}

/// One tuple extended by every boundary value in turn, in the order of `vals`.
pub open spec fn extend_one(sub: Seq<u128>, vals: Seq<u128>) -> Seq<Seq<u128>> {
    Seq::new(vals.len(), |i: int| sub.push(vals[i]))
}

/// Every tuple of `subs` extended by every boundary value: one block per
/// tuple, in `subs` order, the appended value varying within a block.
pub open spec fn extend_all(subs: Seq<Seq<u128>>, vals: Seq<u128>) -> Seq<Seq<u128>>
    decreases subs.len(),
{
    if subs.len() == 0 {
        Seq::empty()
    } else {
        extend_all(subs.drop_last(), vals) + extend_one(subs.last(), vals)
    }
}

/// The full Cartesian product of `vals` with itself `k` times, by recursive
/// expansion: position 0 varies slowest, the last position fastest.
pub open spec fn tuples(k: nat, vals: Seq<u128>) -> Seq<Seq<u128>>
    decreases k,
{
    if k == 0 {
        seq![Seq::empty()]
    } else {
        extend_all(tuples((k - 1) as nat, vals), vals)
    }
}

proof fn lemma_count_pos(n: nat, k: nat)
    requires
        1 <= n,
    ensures
        1 <= count(n, k),
    decreases k,
{
    if k > 0 {
        lemma_count_pos(n, (k - 1) as nat);
        lemma_mul_inequality(1, n as int, count(n, (k - 1) as nat) as int);
    }
}

proof fn lemma_extend_all_len(subs: Seq<Seq<u128>>, vals: Seq<u128>)
    ensures
        extend_all(subs, vals).len() == subs.len() * vals.len(),
    decreases subs.len(),
{
    if subs.len() > 0 {
        lemma_extend_all_len(subs.drop_last(), vals);
        assert((subs.len() - 1) * vals.len() + vals.len() == subs.len() * vals.len())
            by (nonlinear_arith);
    }
}

proof fn lemma_extend_all_index(subs: Seq<Seq<u128>>, vals: Seq<u128>, j: int)
    requires
        1 <= vals.len(),
        0 <= j < subs.len() * vals.len(),
    ensures
        extend_all(subs, vals)[j] == subs[j / (vals.len() as int)].push(
            vals[j % (vals.len() as int)],
        ),
    decreases subs.len(),
{
    let n = vals.len() as int;
    let m = subs.len() as int;
    lemma_extend_all_len(subs, vals);
    lemma_extend_all_len(subs.drop_last(), vals);
    if j < (m - 1) * n {
        lemma_extend_all_index(subs.drop_last(), vals, j);
        lemma_div_pos_is_pos(j, n);
        lemma_mod_bound(j, n);
        lemma_fundamental_div_mod(j, n);
        if j / n >= m - 1 {
            lemma_mul_inequality(m - 1, j / n, n);
            assert(false);
        }
        assert(subs.drop_last()[j / n] == subs[j / n]);
    } else {
        let r = j - (m - 1) * n;
        assert(m * n == (m - 1) * n + n) by (nonlinear_arith);
        lemma_fundamental_div_mod_converse(j, n, m - 1, r);
        assert(extend_all(subs, vals)[j] == extend_one(subs.last(), vals)[r]);
        assert(subs.last() == subs[m - 1]);
    }
}

/// Cardinality: the generator yields exactly `n^k` tuples for arity `k` over
/// a boundary set of size `n`.
pub proof fn lemma_cardinality(k: nat, vals: Seq<u128>)
    ensures
        tuples(k, vals).len() == count(vals.len(), k),
    decreases k,
{
    if k > 0 {
        lemma_cardinality((k - 1) as nat, vals);
        lemma_extend_all_len(tuples((k - 1) as nat, vals), vals);
    }
}

proof fn lemma_tuples_index(k: nat, vals: Seq<u128>, j: int)
    requires
        1 <= k,
        1 <= vals.len(),
        0 <= j < count(vals.len(), k),
    ensures
        0 <= j / (vals.len() as int) < count(vals.len(), (k - 1) as nat),
        0 <= j % (vals.len() as int) < vals.len(),
        tuples(k, vals)[j] == tuples((k - 1) as nat, vals)[j / (vals.len() as int)].push(
            vals[j % (vals.len() as int)],
        ),
{
    let n = vals.len() as int;
    let c = count(vals.len(), (k - 1) as nat) as int;
    lemma_cardinality((k - 1) as nat, vals);
    lemma_extend_all_index(tuples((k - 1) as nat, vals), vals, j);
    lemma_div_pos_is_pos(j, n);
    lemma_mod_bound(j, n);
    lemma_fundamental_div_mod(j, n);
    if j / n >= c {
        lemma_mul_inequality(c, j / n, n);
        assert(false);
    }
}

proof fn lemma_push_injective(a: Seq<u128>, x: u128, b: Seq<u128>, y: u128)
    requires
        a.push(x) == b.push(y),
    ensures
        a == b,
        x == y,
{
    assert(a =~= a.push(x).drop_last());
    assert(b =~= b.push(y).drop_last());
    assert(a.push(x).last() == x);
    assert(b.push(y).last() == y);
}

proof fn lemma_tuples_distinct(k: nat, vals: Seq<u128>, i: int, j: int)
    requires
        1 <= vals.len(),
        forall|p: int, q: int| 0 <= p < q < vals.len() ==> vals[p] != vals[q],
        0 <= i < j < count(vals.len(), k),
    ensures
        tuples(k, vals)[i] != tuples(k, vals)[j],
    decreases k,
{
    let n = vals.len() as int;
    lemma_tuples_index(k, vals, i);
    lemma_tuples_index(k, vals, j);
    let prev = tuples((k - 1) as nat, vals);
    let ti = prev[i / n].push(vals[i % n]);
    let tj = prev[j / n].push(vals[j % n]);
    lemma_div_is_ordered(i, j, n);
    if i / n == j / n {
        lemma_fundamental_div_mod(i, n);
        lemma_fundamental_div_mod(j, n);
        assert(i % n != j % n);
        if i % n < j % n {
            assert(vals[i % n] != vals[j % n]);
        } else {
            assert(vals[j % n] != vals[i % n]);
        }
        if ti == tj {
            lemma_push_injective(prev[i / n], vals[i % n], prev[j / n], vals[j % n]);
            assert(false);
        }
    } else {
        lemma_tuples_distinct((k - 1) as nat, vals, i / n, j / n);
        if ti == tj {
            lemma_push_injective(prev[i / n], vals[i % n], prev[j / n], vals[j % n]);
            assert(false);
        }
    }
}

pub(crate) proof fn lemma_tuples_membership(k: nat, vals: Seq<u128>, j: int)
    requires
        1 <= vals.len(),
        0 <= j < count(vals.len(), k),
    ensures
        tuples(k, vals)[j].len() == k,
        forall|p: int| 0 <= p < k ==> vals.contains(#[trigger] tuples(k, vals)[j][p]),
    decreases k,
{
    let n = vals.len() as int;
    if k == 0 {
        assert(tuples(0, vals)[0] == Seq::<u128>::empty());
    } else {
        lemma_tuples_index(k, vals, j);
        lemma_tuples_membership((k - 1) as nat, vals, j / n);
        let prev = tuples((k - 1) as nat, vals)[j / n];
        let t = tuples(k, vals)[j];
        assert(vals.contains(vals[j % n]));
        assert forall|p: int| 0 <= p < k implies vals.contains(#[trigger] t[p]) by {
            if p < k - 1 {
                assert(t[p] == prev[p]);
            } else {
                assert(t[p] == vals[j % n]);
            }
        }
    }
}

proof fn lemma_tuples_contains(k: nat, vals: Seq<u128>, t: Seq<u128>)
    requires
        1 <= vals.len(),
        t.len() == k,
        forall|p: int| 0 <= p < k ==> vals.contains(#[trigger] t[p]),
    ensures
        tuples(k, vals).contains(t),
    decreases k,
{
    let n = vals.len() as int;
    lemma_cardinality(k, vals);
    if k == 0 {
        assert(t =~= Seq::<u128>::empty());
        assert(tuples(k, vals)[0] == t);
    } else {
        let prefix = t.drop_last();
        assert forall|p: int| 0 <= p < k - 1 implies vals.contains(#[trigger] prefix[p]) by {
            assert(prefix[p] == t[p]);
        }
        lemma_tuples_contains((k - 1) as nat, vals, prefix);
        lemma_cardinality((k - 1) as nat, vals);
        let c = count(vals.len(), (k - 1) as nat) as int;
        let b = choose|b: int| 0 <= b < c && #[trigger] tuples((k - 1) as nat, vals)[b] == prefix;
        assert(vals.contains(t[k - 1]));
        let r = choose|r: int| 0 <= r < n && vals[r] == t[k - 1];
        let j = b * n + r;
        assert(b * n <= (c - 1) * n) by {
            lemma_mul_inequality(b, c - 1, n);
        }
        assert((c - 1) * n + n == c * n) by (nonlinear_arith);
        assert(c * n == count(vals.len(), k));
        assert(0 <= j < count(vals.len(), k)) by {
            lemma_mul_inequality(0, b, n);
        }
        lemma_fundamental_div_mod_converse(j, n, b, r);
        lemma_tuples_index(k, vals, j);
        assert(tuples(k, vals)[j] == prefix.push(vals[r]));
        assert(prefix.push(vals[r]) =~= t);
        assert(tuples(k, vals)[j] == t);
    }
}

/// No duplicates and full coverage: the generated tuples are pairwise
/// distinct, and as an unordered collection they are exactly the length-`k`
/// tuples whose every entry is drawn from `vals`.
pub proof fn lemma_full_coverage(k: nat, vals: Seq<u128>)
    requires
        1 <= vals.len(),
        forall|p: int, q: int| 0 <= p < q < vals.len() ==> vals[p] != vals[q],
    ensures
        forall|i: int, j: int|
            0 <= i < j < tuples(k, vals).len() ==> tuples(k, vals)[i] != tuples(k, vals)[j],
        tuples(k, vals).to_set() == Set::new(
            |t: Seq<u128>| t.len() == k && forall|p: int| 0 <= p < k ==> vals.contains(#[trigger] t[p]),
        ),
{
    lemma_cardinality(k, vals);
    assert forall|i: int, j: int|
        0 <= i < j < tuples(k, vals).len() implies tuples(k, vals)[i] != tuples(k, vals)[j] by {
        lemma_tuples_distinct(k, vals, i, j);
    }
    let full = Set::new(
        |t: Seq<u128>| t.len() == k && forall|p: int| 0 <= p < k ==> vals.contains(#[trigger] t[p]),
    );
    assert forall|t: Seq<u128>| tuples(k, vals).to_set().contains(t) implies full.contains(t) by {
        let j = choose|j: int| 0 <= j < tuples(k, vals).len() && tuples(k, vals)[j] == t;
        lemma_tuples_membership(k, vals, j);
    }
    assert forall|t: Seq<u128>| full.contains(t) implies tuples(k, vals).to_set().contains(t) by {
        lemma_tuples_contains(k, vals, t);
    }
    assert(tuples(k, vals).to_set() =~= full);
}

/// Deterministic order: generation is referentially transparent, so two runs
/// with the same arity and the same boundary set yield identical sequences.
pub proof fn lemma_deterministic(k: nat, vals: Seq<u128>, a: Seq<Seq<u128>>, b: Seq<Seq<u128>>)
    requires
        a == tuples(k, vals),
        b == tuples(k, vals),
    ensures
        a == b,
{
}

/// The order, stated by position: entry `p` of tuple `j` is the boundary
/// value indexed by digit `p` of `j` written in base `vals.len()`, most
/// significant digit first. Position 0 varies slowest, the last position
/// fastest.
pub proof fn lemma_positional_order(k: nat, vals: Seq<u128>, j: int, p: int)
    requires
        1 <= vals.len(),
        0 <= j < count(vals.len(), k),
        0 <= p < k,
    ensures
        tuples(k, vals)[j][p] == vals[(j / (count(vals.len(), (k - p - 1) as nat) as int)) % (
        vals.len() as int)],
    decreases k,
{
    let n = vals.len() as int;
    lemma_tuples_index(k, vals, j);
    lemma_tuples_membership((k - 1) as nat, vals, j / n);
    if p == k - 1 {
        lemma_div_basics_2(j);
        assert(count(vals.len(), 0) == 1);
    } else {
        lemma_positional_order((k - 1) as nat, vals, j / n, p);
        let c = count(vals.len(), ((k - 1) - p - 1) as nat) as int;
        lemma_count_pos(vals.len(), ((k - 1) - p - 1) as nat);
        lemma_div_denominator(j, n, c);
        assert(count(vals.len(), (k - p - 1) as nat) == n * c);
        assert(tuples(k, vals)[j][p] == tuples((k - 1) as nat, vals)[j / n][p]);
    }
}

proof fn lemma_extend_all_take_step(subs: Seq<Seq<u128>>, vals: Seq<u128>, s: int)
    requires
        0 <= s < subs.len(),
    ensures
        extend_all(subs.take(s + 1), vals) == extend_all(subs.take(s), vals) + extend_one(
            subs[s],
            vals,
        ),
{
    assert(subs.take(s + 1).drop_last() =~= subs.take(s));
    assert(subs.take(s + 1).last() == subs[s]);
}

/// A copy of `sub` with `v` appended.
fn copy_push(sub: &Vec<u128>, v: u128) -> (t: Vec<u128>)
    ensures
        t@ == sub@.push(v),
{
    let mut t: Vec<u128> = Vec::new();
    proof {
        assert(t@ =~= sub@.take(0));
    }
    let mut i: usize = 0;
    while i < sub.len()
        invariant
            i <= sub@.len(),
            t@ == sub@.take(i as int),
        decreases sub@.len() - i,
    {
        t.push(sub[i]);
        proof {
            assert(sub@.take(i as int + 1) =~= sub@.take(i as int).push(sub@[i as int]));
        }
        i = i + 1;
    }
    proof {
        assert(sub@.take(sub@.len() as int) =~= sub@);
    }
    t.push(v);
    t
}

/// Extends each tuple of `subs` by each value of `vals`, blocks in `subs`
/// order, values varying within a block.
fn extend_step(subs: &Vec<Vec<u128>>, vals: &Vec<u128>) -> (result: Vec<Vec<u128>>)
    ensures
        result.deep_view() == extend_all(subs.deep_view(), vals@),
{
    let ghost sd = subs.deep_view();
    let mut result: Vec<Vec<u128>> = Vec::new();
    proof {
        assert(result.deep_view() =~= extend_all(sd.take(0), vals@));
    }
    let mut s: usize = 0;
    while s < subs.len()
        invariant
            s <= subs@.len(),
            sd == subs.deep_view(),
            result.deep_view() == extend_all(sd.take(s as int), vals@),
        decreases subs@.len() - s,
    {
        let sub = &subs[s];
        proof {
            assert(sub@ =~= sd[s as int]);
            assert(extend_one(sd[s as int], vals@).take(0) =~= Seq::<Seq<u128>>::empty());
            assert(result.deep_view() =~= extend_all(sd.take(s as int), vals@) + extend_one(
                sd[s as int],
                vals@,
            ).take(0));
        }
        let mut j: usize = 0;
        while j < vals.len()
            invariant
                j <= vals@.len(),
                s < subs@.len(),
                sd == subs.deep_view(),
                sub@ == sd[s as int],
                result.deep_view() == extend_all(sd.take(s as int), vals@) + extend_one(
                    sd[s as int],
                    vals@,
                ).take(j as int),
            decreases vals@.len() - j,
        {
            let ghost prev = result.deep_view();
            let t = copy_push(sub, vals[j]);
            result.push(t);
            proof {
                let block = extend_one(sd[s as int], vals@);
                assert(t.deep_view() =~= t@);
                assert(result.deep_view() =~= prev.push(t@));
                assert(t@ == block[j as int]);
                assert(block.take(j as int + 1) =~= block.take(j as int).push(block[j as int]));
                assert(extend_all(sd.take(s as int), vals@) + block.take(j as int + 1)
                    =~= prev.push(t@));
            }
            j = j + 1;
        }
        proof {
            let block = extend_one(sd[s as int], vals@);
            assert(block.take(vals@.len() as int) =~= block);
            lemma_extend_all_take_step(sd, vals@, s as int);
        }
        s = s + 1;
    }
    proof {
        assert(sd.take(subs@.len() as int) =~= sd);
    }
    result
}

/// The full test matrix: every tuple of length `k` over the boundary set
/// `vals`, in the deterministic order of `tuples`.
pub fn combinations(k: usize, vals: &Vec<u128>) -> (result: Vec<Vec<u128>>)
    requires
        1 <= k,
        1 <= vals@.len(),
    ensures
        result.deep_view() == tuples(k as nat, vals@),
    decreases k,
{
    if k == 1 {
        let mut base: Vec<Vec<u128>> = Vec::new();
        let empty: Vec<u128> = Vec::new();
        base.push(empty);
        proof {
            assert(base.deep_view() =~~= tuples(0, vals@));
        }
        extend_step(&base, vals)
    } else {
        let subs = combinations(k - 1, vals);
        extend_step(&subs, vals)
    }
}

} // verus!
