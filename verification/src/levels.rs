//! Layout levels of a dependency graph: every dependency lifts its source to at least
//! one level past its target, in repeated passes over the dependencies.
//!
//! A dependency is a pair `(source, target)` of keys. Levels are whole numbers that
//! saturate at `u64::MAX`.

use vstd::prelude::*;

use crate::seqs::pair_views;
use crate::text::{copy_str, str_equal};

verus! {

/// `x`, or `u64::MAX` when it is larger: layout arithmetic saturates at the largest
/// coordinate.
pub open spec fn sat(x: int) -> int {
    if x > u64::MAX {
        u64::MAX as int
    } else {
        x
    }
}

/// The level of `key` (0 for a key without one).
pub open spec fn level_in(levels: Map<Seq<char>, nat>, key: Seq<char>) -> nat {
    if levels.dom().contains(key) {
        levels[key]
    } else {
        0
    }
}

/// The levels after the dependency `dep` has lifted its source to one past its target.
pub open spec fn level_step(levels: Map<Seq<char>, nat>, dep: (Seq<char>, Seq<char>)) -> Map<Seq<char>, nat> {
    let lifted = sat(level_in(levels, dep.1) as int + 1) as nat;
    let current = level_in(levels, dep.0);
    levels.insert(dep.0, if current >= lifted { current } else { lifted })
}

/// The levels after one pass over `deps`, in order.
pub open spec fn level_pass(levels: Map<Seq<char>, nat>, deps: Seq<(Seq<char>, Seq<char>)>) -> Map<Seq<char>, nat>
    decreases deps.len(),
{
    if deps.len() == 0 {
        levels
    } else {
        level_step(level_pass(levels, deps.drop_last()), deps.last())
    }
}

/// The levels after `rounds` passes over `deps`, from every key at level 0.
pub open spec fn level_rounds(deps: Seq<(Seq<char>, Seq<char>)>, rounds: nat) -> Map<Seq<char>, nat>
    decreases rounds,
{
    if rounds == 0 {
        Map::empty()
    } else {
        level_pass(level_rounds(deps, (rounds - 1) as nat), deps)
    }
}

/// The map that a list of distinct keys with their levels holds.
pub open spec fn assoc_map(e: Seq<(String, u64)>) -> Map<Seq<char>, nat>
    decreases e.len(),
{
    if e.len() == 0 {
        Map::empty()
    } else {
        assoc_map(e.drop_last()).insert(e.last().0@, e.last().1 as nat)
    }
}

/// No key occurs twice in `e`.
pub open spec fn distinct_keys(e: Seq<(String, u64)>) -> bool {
    forall|i: int, j: int| 0 <= i < j < e.len() ==> e[i].0@ != e[j].0@
}

proof fn lemma_assoc_lookup(e: Seq<(String, u64)>, k: Seq<char>)
    requires
        distinct_keys(e),
    ensures
        forall|i: int|
            0 <= i < e.len() && (#[trigger] e[i]).0@ == k ==> assoc_map(e).dom().contains(k)
                && assoc_map(e)[k] == e[i].1,
        (forall|i: int| 0 <= i < e.len() ==> (#[trigger] e[i]).0@ != k) ==> !assoc_map(e).dom().contains(k),
    decreases e.len(),
{
    if e.len() > 0 {
        let d = e.drop_last();
        assert forall|i: int, j: int| 0 <= i < j < d.len() implies d[i].0@ != d[j].0@ by {
            assert(d[i] == e[i] && d[j] == e[j]);
        }
        lemma_assoc_lookup(d, k);
        assert forall|i: int| 0 <= i < e.len() && (#[trigger] e[i]).0@ == k implies assoc_map(e).dom().contains(k)
            && assoc_map(e)[k] == e[i].1 by {
            if i < e.len() - 1 {
                assert(d[i] == e[i]);
                assert(e[i].0@ != e[e.len() - 1].0@);
            }
        }
        if forall|i: int| 0 <= i < e.len() ==> (#[trigger] e[i]).0@ != k {
            assert forall|i: int| 0 <= i < d.len() implies (#[trigger] d[i]).0@ != k by {
                assert(d[i] == e[i]);
            }
            assert(e[e.len() - 1].0@ != k);
        }
    }
}

proof fn lemma_assoc_update(e: Seq<(String, u64)>, i: int, entry: (String, u64))
    requires
        distinct_keys(e),
        0 <= i < e.len(),
        e[i].0@ == entry.0@,
    ensures
        distinct_keys(e.update(i, entry)),
        assoc_map(e.update(i, entry)) == assoc_map(e).insert(entry.0@, entry.1 as nat),
    decreases e.len(),
{
    let u = e.update(i, entry);
    assert forall|a: int, b: int| 0 <= a < b < u.len() implies u[a].0@ != u[b].0@ by {
        assert(e[a].0@ != e[b].0@);
    }
    let d = e.drop_last();
    assert forall|a: int, b: int| 0 <= a < b < d.len() implies d[a].0@ != d[b].0@ by {
        assert(d[a] == e[a] && d[b] == e[b]);
    }
    if i == e.len() - 1 {
        assert(u.drop_last() =~= d);
        assert(assoc_map(u) =~= assoc_map(e).insert(entry.0@, entry.1 as nat));
    } else {
        assert(u.drop_last() =~= d.update(i, entry));
        lemma_assoc_update(d, i, entry);
        assert(e.last().0@ != entry.0@) by {
            assert(e[i].0@ != e[e.len() - 1].0@);
        }
        assert(assoc_map(u) =~= assoc_map(e).insert(entry.0@, entry.1 as nat));
    }
}

/// The level of `key` in the list `e`.
pub fn level_of(e: &Vec<(String, u64)>, key: &str) -> (v: u64)
    requires
        distinct_keys(e@),
    ensures
        v == level_in(assoc_map(e@), key@),
{
    proof {
        lemma_assoc_lookup(e@, key@);
    }
    let mut i: usize = 0;
    while i < e.len()
        invariant
            i <= e@.len(),
            distinct_keys(e@),
            forall|j: int| 0 <= j < i ==> (#[trigger] e@[j]).0@ != key@,
        decreases e@.len() - i,
    {
        if str_equal(e[i].0.as_str(), key) {
            proof {
                lemma_assoc_lookup(e@, key@);
            }
            return e[i].1;
        }
        i += 1;
    }
    0
}

/// Sets the level of `key` in the list `e` to `v`.
fn set_level(e: &mut Vec<(String, u64)>, key: &str, v: u64)
    requires
        distinct_keys(old(e)@),
    ensures
        distinct_keys(final(e)@),
        assoc_map(final(e)@) == assoc_map(old(e)@).insert(key@, v as nat),
{
    let mut i: usize = 0;
    while i < e.len()
        invariant
            i <= e@.len(),
            *e == *old(e),
            distinct_keys(e@),
            forall|j: int| 0 <= j < i ==> (#[trigger] e@[j]).0@ != key@,
        decreases e@.len() - i,
    {
        if str_equal(e[i].0.as_str(), key) {
            let entry = (copy_str(key), v);
            proof {
                lemma_assoc_update(e@, i as int, entry);
            }
            e.set(i, entry);
            return;
        }
        i += 1;
    }
    let entry = (copy_str(key), v);
    let ghost before = e@;
    e.push(entry);
    assert(e@.drop_last() =~= before);
}

/// The level of each key after `rounds` passes over `deps`: each dependency
/// `(source, target)` lifts its source to at least one past its target.
pub fn dependency_levels(rounds: usize, deps: &Vec<(String, String)>) -> (levels: Vec<(String, u64)>)
    ensures
        distinct_keys(levels@),
        assoc_map(levels@) == level_rounds(pair_views(deps@), rounds as nat),
{
    let ghost ds = pair_views(deps@);
    let mut levels: Vec<(String, u64)> = Vec::new();
    assert(assoc_map(levels@) =~= level_rounds(ds, 0));
    let mut round: usize = 0;
    while round < rounds
        invariant
            round <= rounds,
            ds == pair_views(deps@),
            distinct_keys(levels@),
            assoc_map(levels@) == level_rounds(ds, round as nat),
        decreases rounds - round,
    {
        let ghost start = assoc_map(levels@);
        let mut k: usize = 0;
        while k < deps.len()
            invariant
                k <= deps@.len(),
                ds == pair_views(deps@),
                distinct_keys(levels@),
                assoc_map(levels@) == level_pass(start, ds.subrange(0, k as int)),
            decreases deps@.len() - k,
        {
            let dep = &deps[k];
            let target = level_of(&levels, dep.1.as_str());
            let lifted = target.saturating_add(1);
            let current = level_of(&levels, dep.0.as_str());
            let next = if current >= lifted {
                current
            } else {
                lifted
            };
            set_level(&mut levels, dep.0.as_str(), next);
            assert(ds.subrange(0, k + 1).drop_last() =~= ds.subrange(0, k as int));
            k += 1;
        }
        assert(ds.subrange(0, k as int) =~= ds);
        round += 1;
    }
    levels
}

proof fn lemma_pass_untouched(m: Map<Seq<char>, nat>, deps: Seq<(Seq<char>, Seq<char>)>, k: Seq<char>)
    requires
        forall|i: int| 0 <= i < deps.len() ==> (#[trigger] deps[i]).0 != k,
    ensures
        level_in(level_pass(m, deps), k) == level_in(m, k),
    decreases deps.len(),
{
    if deps.len() > 0 {
        assert forall|i: int| 0 <= i < deps.drop_last().len() implies (#[trigger] deps.drop_last()[i]).0 != k by {
            assert(deps.drop_last()[i] == deps[i]);
        }
        lemma_pass_untouched(m, deps.drop_last(), k);
        assert(deps.last().0 != k);
    }
}

proof fn lemma_rounds_untouched(deps: Seq<(Seq<char>, Seq<char>)>, rounds: nat, k: Seq<char>)
    requires
        forall|i: int| 0 <= i < deps.len() ==> (#[trigger] deps[i]).0 != k,
    ensures
        level_in(level_rounds(deps, rounds), k) == 0,
    decreases rounds,
{
    if rounds > 0 {
        lemma_rounds_untouched(deps, (rounds - 1) as nat, k);
        lemma_pass_untouched(level_rounds(deps, (rounds - 1) as nat), deps, k);
    }
}

proof fn lemma_pass_lifts(m: Map<Seq<char>, nat>, deps: Seq<(Seq<char>, Seq<char>)>, idx: int)
    requires
        0 <= idx < deps.len(),
    ensures
        level_in(level_pass(m, deps), deps[idx].0) >= 1,
    decreases deps.len(),
{
    if idx < deps.len() - 1 {
        lemma_pass_lifts(m, deps.drop_last(), idx);
        assert(deps.drop_last()[idx] == deps[idx]);
        let before = level_pass(m, deps.drop_last());
        let d = deps.last();
        if d.0 != deps[idx].0 {
            assert(level_in(level_step(before, d), deps[idx].0) == level_in(before, deps[idx].0));
        }
    }
}

/// After at least one pass, the source of a dependency whose target is the source of
/// no dependency is on a higher level than that target, which stays on level 0.
pub proof fn lemma_source_above_free_target(deps: Seq<(Seq<char>, Seq<char>)>, rounds: nat, idx: int)
    requires
        rounds >= 1,
        0 <= idx < deps.len(),
        forall|k: int| 0 <= k < deps.len() ==> (#[trigger] deps[k]).0 != deps[idx].1,
    ensures
        level_in(level_rounds(deps, rounds), deps[idx].1) == 0,
        level_in(level_rounds(deps, rounds), deps[idx].0) >= 1,
{
    lemma_rounds_untouched(deps, rounds, deps[idx].1);
    lemma_pass_lifts(level_rounds(deps, (rounds - 1) as nat), deps, idx);
}


/// Each dependency of `deps` whose source ranks below `j` already holds: its source is
/// at least one level past its target (saturating).
pub open spec fn holds_below(
    levels: Map<Seq<char>, nat>,
    deps: Seq<(Seq<char>, Seq<char>)>,
    rank: spec_fn(Seq<char>) -> nat,
    j: nat,
) -> bool {
    forall|i: int|
        0 <= i < deps.len() && rank(#[trigger] deps[i].0) < j ==> level_in(levels, deps[i].0) >= sat(
            level_in(levels, deps[i].1) as int + 1,
        )
}

/// Every dependency goes from a higher rank to a lower one.
pub open spec fn ranked_downward(deps: Seq<(Seq<char>, Seq<char>)>, rank: spec_fn(Seq<char>) -> nat) -> bool {
    forall|i: int| 0 <= i < deps.len() ==> rank((#[trigger] deps[i]).1) < rank(deps[i].0)
}

proof fn lemma_pass_grows(m: Map<Seq<char>, nat>, deps: Seq<(Seq<char>, Seq<char>)>, p: int, q: int, k: Seq<char>)
    requires
        0 <= p <= q <= deps.len(),
    ensures
        level_in(level_pass(m, deps.take(q)), k) >= level_in(level_pass(m, deps.take(p)), k),
    decreases q - p,
{
    if p < q {
        lemma_pass_grows(m, deps, p, q - 1, k);
        assert(deps.take(q).drop_last() =~= deps.take(q - 1));
    }
}

proof fn lemma_pass_keeps_low(
    m: Map<Seq<char>, nat>,
    deps: Seq<(Seq<char>, Seq<char>)>,
    rank: spec_fn(Seq<char>) -> nat,
    j: nat,
    p: int,
    k: Seq<char>,
)
    requires
        0 <= p <= deps.len(),
        ranked_downward(deps, rank),
        holds_below(m, deps, rank, j),
        rank(k) < j,
    ensures
        level_in(level_pass(m, deps.take(p)), k) == level_in(m, k),
    decreases p,
{
    if p > 0 {
        let d = deps[p - 1];
        assert(deps.take(p).drop_last() =~= deps.take(p - 1));
        assert(deps.take(p).last() == d);
        lemma_pass_keeps_low(m, deps, rank, j, p - 1, k);
        if d.0 == k {
            assert(rank(d.1) < rank(d.0));
            lemma_pass_keeps_low(m, deps, rank, j, p - 1, d.1);
        }
    }
}

proof fn lemma_pass_settles_next(
    m: Map<Seq<char>, nat>,
    deps: Seq<(Seq<char>, Seq<char>)>,
    rank: spec_fn(Seq<char>) -> nat,
    j: nat,
)
    requires
        ranked_downward(deps, rank),
        holds_below(m, deps, rank, j),
    ensures
        holds_below(level_pass(m, deps), deps, rank, j + 1),
{
    let n = deps.len() as int;
    assert(deps.take(n) =~= deps);
    let after = level_pass(m, deps);
    assert forall|i: int| 0 <= i < deps.len() && rank(#[trigger] deps[i].0) < j + 1 implies level_in(
        after,
        deps[i].0,
    ) >= sat(level_in(after, deps[i].1) as int + 1) by {
        let s = deps[i].0;
        let t = deps[i].1;
        assert(rank(t) < rank(s));
        lemma_pass_keeps_low(m, deps, rank, j, n, t);
        if rank(s) < j {
            lemma_pass_keeps_low(m, deps, rank, j, n, s);
        } else {
            lemma_pass_keeps_low(m, deps, rank, j, i, t);
            assert(deps.take(i + 1).drop_last() =~= deps.take(i));
            assert(deps.take(i + 1).last() == deps[i]);
            lemma_pass_grows(m, deps, i + 1, n, s);
        }
    }
}

proof fn lemma_rounds_settle(deps: Seq<(Seq<char>, Seq<char>)>, rank: spec_fn(Seq<char>) -> nat, rounds: nat)
    requires
        ranked_downward(deps, rank),
    ensures
        holds_below(level_rounds(deps, rounds), deps, rank, rounds),
    decreases rounds,
{
    if rounds > 0 {
        lemma_rounds_settle(deps, rank, (rounds - 1) as nat);
        lemma_pass_settles_next(level_rounds(deps, (rounds - 1) as nat), deps, rank, (rounds - 1) as nat);
    }
}

proof fn lemma_pass_below_rank(
    m: Map<Seq<char>, nat>,
    deps: Seq<(Seq<char>, Seq<char>)>,
    rank: spec_fn(Seq<char>) -> nat,
    k: Seq<char>,
)
    requires
        ranked_downward(deps, rank),
        forall|x: Seq<char>| #[trigger] level_in(m, x) <= rank(x),
    ensures
        level_in(level_pass(m, deps), k) <= rank(k),
        forall|x: Seq<char>| #[trigger] level_in(level_pass(m, deps), x) <= rank(x),
    decreases deps.len(),
{
    if deps.len() > 0 {
        lemma_pass_below_rank(m, deps.drop_last(), rank, k);
        let before = level_pass(m, deps.drop_last());
        let d = deps.last();
        assert(d == deps[deps.len() - 1]);
        assert(level_in(before, d.1) <= rank(d.1));
        assert(level_in(before, d.0) <= rank(d.0));
        assert forall|x: Seq<char>| #[trigger] level_in(level_pass(m, deps), x) <= rank(x) by {
            assert(level_in(before, x) <= rank(x));
        }
    }
}

proof fn lemma_rounds_below_rank(deps: Seq<(Seq<char>, Seq<char>)>, rank: spec_fn(Seq<char>) -> nat, rounds: nat)
    requires
        ranked_downward(deps, rank),
    ensures
        forall|x: Seq<char>| #[trigger] level_in(level_rounds(deps, rounds), x) <= rank(x),
    decreases rounds,
{
    if rounds > 0 {
        lemma_rounds_below_rank(deps, rank, (rounds - 1) as nat);
        lemma_pass_below_rank(level_rounds(deps, (rounds - 1) as nat), deps, rank, seq![]);
    }
}

/// Without a cycle, enough passes lay every dependency out: when the keys can be ranked
/// so that each dependency goes from a higher rank to a lower one, below `rounds`, then
/// after `rounds` passes every source is on a higher level than its target, whatever
/// the order of the dependencies, and no key is above its rank.
pub proof fn lemma_acyclic_levels_respect_dependencies(
    deps: Seq<(Seq<char>, Seq<char>)>,
    rank: spec_fn(Seq<char>) -> nat,
    rounds: nat,
)
    requires
        rounds <= u64::MAX,
        forall|i: int| 0 <= i < deps.len() ==> rank((#[trigger] deps[i]).1) < rank(deps[i].0) < rounds,
    ensures
        forall|i: int|
            0 <= i < deps.len() ==> level_in(level_rounds(deps, rounds), (#[trigger] deps[i]).0) >= level_in(
                level_rounds(deps, rounds),
                deps[i].1,
            ) + 1,
        forall|x: Seq<char>| #[trigger] level_in(level_rounds(deps, rounds), x) <= rank(x),
{
    lemma_rounds_settle(deps, rank, rounds);
    lemma_rounds_below_rank(deps, rank, rounds);
    let l = level_rounds(deps, rounds);
    assert forall|i: int| 0 <= i < deps.len() implies level_in(l, (#[trigger] deps[i]).0) >= level_in(l, deps[i].1)
        + 1 by {
        assert(rank(deps[i].0) < rounds);
        assert(level_in(l, deps[i].1) <= rank(deps[i].1));
    }
}

} // verus!
