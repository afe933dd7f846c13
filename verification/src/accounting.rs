//! Sums over the accounts of the pallet: the staked total is what the
//! candidates bonded plus what the nominators nominated.
use vstd::prelude::*;
use crate::bond::{Bond, has_owner, sum_amounts, lemma_last_amount_of_bond, lemma_sum_without_owner, lemma_sum_nonneg, lemma_contains_has_owner};
use crate::nominator::NominatorView;
use crate::candidate::{CandidateMetadata, CapacityStatus};
use crate::model::{
    StakingView, staking_wf, kick_nomination, nominate_error, nominate_post, candidate_add_nomination,
    nominator_after, join_candidates_error, join_candidates_post,
};
use crate::preservation::{lemma_nominator_outside_lists, lemma_candidate_add_effect, lemma_nominator_after};

verus! {

/// The sum of `value` over the finite set `keys`.
pub open spec fn sum_over(keys: Set<u64>, value: spec_fn(u64) -> int) -> int {
    keys.fold(0int, |acc: int, k: u64| acc + value(k))
}

/// Adding a key adds its value to the sum.
pub proof fn lemma_sum_over_insert(keys: Set<u64>, value: spec_fn(u64) -> int, a: u64)
    requires
        keys.finite(),
        !keys.contains(a),
    ensures
        sum_over(keys.insert(a), value) == sum_over(keys, value) + value(a),
{
    let f = |acc: int, k: u64| acc + value(k);
    assert(vstd::set::fold::is_fun_commutative(f)) by {
        assert forall|a1: u64, a2: u64, b: int| #[trigger] f(f(b, a2), a1) == f(f(b, a1), a2) by {}
    }
    vstd::set::fold::lemma_fold_insert(keys, 0int, f, a);
}

/// The sum over no key is zero.
pub proof fn lemma_sum_over_empty(value: spec_fn(u64) -> int)
    ensures
        sum_over(Set::<u64>::empty(), value) == 0,
{
    vstd::set::fold::lemma_fold_empty(0int, |acc: int, k: u64| acc + value(k));
}

/// Taking a key out takes its value off the sum.
pub proof fn lemma_sum_over_remove(keys: Set<u64>, value: spec_fn(u64) -> int, a: u64)
    requires
        keys.finite(),
        keys.contains(a),
    ensures
        sum_over(keys, value) == sum_over(keys.remove(a), value) + value(a),
{
    lemma_sum_over_insert(keys.remove(a), value, a);
    assert(keys.remove(a).insert(a) =~= keys);
}

/// Two values that agree on every key have the same sum.
pub proof fn lemma_sum_over_congruent(keys: Set<u64>, v1: spec_fn(u64) -> int, v2: spec_fn(u64) -> int)
    requires
        keys.finite(),
        forall|k: u64| keys.contains(k) ==> v1(k) == v2(k),
    ensures
        sum_over(keys, v1) == sum_over(keys, v2),
    decreases keys.len(),
{
    if keys.len() == 0 {
        assert(keys =~= Set::<u64>::empty());
        lemma_sum_over_empty(v1);
        lemma_sum_over_empty(v2);
    } else {
        let a = keys.choose();
        assert(keys.contains(a));
        lemma_sum_over_remove(keys, v1, a);
        lemma_sum_over_remove(keys, v2, a);
        lemma_sum_over_congruent(keys.remove(a), v1, v2);
    }
}

/// Changing the value of one key changes the sum by the difference.
pub proof fn lemma_sum_over_update(keys: Set<u64>, v1: spec_fn(u64) -> int, v2: spec_fn(u64) -> int, a: u64)
    requires
        keys.finite(),
        keys.contains(a),
        forall|k: u64| keys.contains(k) && k != a ==> v1(k) == v2(k),
    ensures
        sum_over(keys, v2) == sum_over(keys, v1) - v1(a) + v2(a),
{
    lemma_sum_over_remove(keys, v1, a);
    lemma_sum_over_remove(keys, v2, a);
    lemma_sum_over_congruent(keys.remove(a), v1, v2);
}

/// The bond of each candidate of `m`.
pub open spec fn bond_of(m: Map<u64, CandidateMetadata>) -> spec_fn(u64) -> int {
    |c: u64| m[c].bond as int
}

/// The total of each nominator of `m`.
pub open spec fn total_of(m: Map<u64, NominatorView>) -> spec_fn(u64) -> int {
    |x: u64| m[x].total as int
}

/// What the candidates have bonded, in all.
pub open spec fn candidate_bonds(s: StakingView) -> int {
    sum_over(s.candidates.dom(), bond_of(s.candidates))
}

/// What the nominators have nominated, in all.
pub open spec fn nominator_totals(s: StakingView) -> int {
    sum_over(s.nominators.dom(), total_of(s.nominators))
}

/// There are finitely many candidates and nominators, and the staked total
/// is what the candidates bonded plus what the nominators nominated.
pub open spec fn total_accounted(s: StakingView) -> bool {
    &&& s.candidates.dom().finite()
    &&& s.nominators.dom().finite()
    &&& s.total == candidate_bonds(s) + nominator_totals(s)
}


/// A nomination behind `candidate` kicks its lowest bottom nomination out:
/// both lists of the candidate are full.
pub open spec fn nomination_kicks(s: StakingView, candidate: u64) -> bool {
    &&& s.candidates[candidate].top_capacity == CapacityStatus::Full
    &&& s.candidates[candidate].bottom_capacity == CapacityStatus::Full
}

/// What a nomination of `amount` behind `candidate` adds to the staked
/// total: its amount, less the lowest bottom amount that it kicks out when
/// both lists of the candidate are full.
pub open spec fn nomination_net_stake(s: StakingView, candidate: u64, amount: u128) -> int {
    if nomination_kicks(s, candidate) {
        amount - s.candidates[candidate].lowest_bottom_nomination_amount
    } else {
        amount as int
    }
}

/// Kicking the bond `k` out of the bottom list of `c` takes its amount off
/// what the nominators nominated.
pub proof fn lemma_kick_totals(s: StakingView, c: u64, k: Bond)
    requires
        staking_wf(s),
        s.nominators.dom().finite(),
        s.bottom.contains_key(c),
        s.bottom[c].nominations.contains(k),
    ensures
        kick_nomination(s, c, k).nominators.dom().finite(),
        nominator_totals(kick_nomination(s, c, k)) == nominator_totals(s) - k.amount,
{
    let x = k.owner;
    let m = Bond { owner: c, amount: k.amount };
    assert(s.nominators.contains_key(x) && s.nominators[x].nominations.contains(m));
    let state = s.nominators[x];
    let noms = state.nominations;
    lemma_last_amount_of_bond(noms, m);
    lemma_sum_without_owner(noms, c);
    lemma_sum_nonneg(crate::bond::without_owner(noms, c));
    let s1 = kick_nomination(s, c, k);
    let dom = s.nominators.dom();
    if noms.len() == 1 {
        let i = choose|i: int| 0 <= i < noms.len() && noms[i] == m;
        assert(i == 0);
        assert(noms.drop_last() =~= Seq::<Bond>::empty());
        assert(sum_amounts(Seq::<Bond>::empty()) == 0);
        assert(state.total == k.amount);
        assert(s1.nominators.dom() =~= dom.remove(x));
        lemma_sum_over_remove(dom, total_of(s.nominators), x);
        lemma_sum_over_congruent(dom.remove(x), total_of(s.nominators), total_of(s1.nominators));
    } else {
        assert(s1.nominators.dom() =~= dom);
        assert(s1.nominators[x].total == state.total - k.amount);
        lemma_sum_over_update(dom, total_of(s.nominators), total_of(s1.nominators), x);
    }
}


/// A nomination that passes its checks keeps the staked total accounted
/// for, unless adding its net stake to the total overflows.
pub proof fn lemma_nominate_accounted(
    s: StakingView,
    nominator: u64,
    candidate: u64,
    amount: u128,
    candidate_nomination_count: u32,
    nomination_count: u32,
)
    requires
        staking_wf(s),
        total_accounted(s),
        nominate_error(s, nominator, candidate, amount, candidate_nomination_count, nomination_count) is None,
        s.total + nomination_net_stake(s, candidate, amount) <= u128::MAX,
    ensures
        nominate_post(s, nominator, candidate, amount).total == s.total + nomination_net_stake(s, candidate, amount),
        total_accounted(nominate_post(s, nominator, candidate, amount)),
{
    let n = nominator;
    let c = candidate;
    let b = Bond { owner: n, amount };
    let meta = s.candidates[c];
    lemma_nominator_outside_lists(s, n, c, amount, candidate_nomination_count, nomination_count);
    lemma_candidate_add_effect(s, c, b);
    lemma_nominator_after(s, n, c, amount);
    let (s1, m1, position, less) = candidate_add_nomination(s, c, meta, b);
    let st = nominator_after(s, n, c, amount);
    let f = nominate_post(s, n, c, amount);
    let bl = s.bottom[c].nominations;
    let kicked = bl.len() == s.config.max_bottom_nominations_per_candidate;
    // The candidates: only the metadata of `c` changes, and not its bond.
    assert(f.candidates == s.candidates.insert(c, m1));
    assert(f.candidates.dom() =~= s.candidates.dom());
    lemma_sum_over_update(s.candidates.dom(), bond_of(s.candidates), bond_of(f.candidates), c);
    // The nominators: the kicked owner loses the kicked bond, then the
    // nominator gains `amount`.
    if kicked {
        lemma_kick_totals(s, c, bl.last());
        lemma_contains_has_owner(bl);
        assert(has_owner(bl, bl.last().owner));
        assert(bl.last().owner != n);
        let k = kick_nomination(s, c, bl.last());
        assert(s1.nominators.contains_key(n) == s.nominators.contains_key(n));
        assert(s.nominators.contains_key(n) ==> s1.nominators[n] == s.nominators[n]);
        assert(nominator_totals(s1) == nominator_totals(k));
    }
    assert(nominator_totals(s1) == nominator_totals(s) - if kicked {
        bl.last().amount as int
    } else {
        0
    });
    let dom1 = s1.nominators.dom();
    assert(f.nominators == s1.nominators.insert(n, st));
    if s1.nominators.contains_key(n) {
        assert(f.nominators.dom() =~= dom1);
        lemma_sum_over_update(dom1, total_of(s1.nominators), total_of(f.nominators), n);
    } else {
        assert(f.nominators.dom() =~= dom1.insert(n));
        lemma_sum_over_insert(dom1, total_of(f.nominators), n);
        lemma_sum_over_congruent(dom1, total_of(f.nominators), total_of(s1.nominators));
    }
    assert(nominator_totals(f) == nominator_totals(s1) + amount);
}

/// A candidate that joins keeps the staked total accounted for, unless
/// adding its bond to the total overflows.
pub proof fn lemma_join_accounted(s: StakingView, who: u64, bond: u128)
    requires
        total_accounted(s),
        join_candidates_error(s, who, bond) is None,
        s.total + bond <= u128::MAX,
    ensures
        total_accounted(join_candidates_post(s, who, bond)),
{
    let f = join_candidates_post(s, who, bond);
    assert(f.candidates.dom() =~= s.candidates.dom().insert(who));
    lemma_sum_over_insert(s.candidates.dom(), bond_of(f.candidates), who);
    lemma_sum_over_congruent(s.candidates.dom(), bond_of(f.candidates), bond_of(s.candidates));
}

} // verus!
