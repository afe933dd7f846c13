//! Why a nomination keeps the pallet's storage invariant.
use vstd::prelude::*;
use crate::bond::{
    Bond, has_owner, distinct_owners, sorted_by_owner, sorted_by_amount,
    lemma_amount_pos, lemma_owner_pos, lemma_insert_owners, lemma_insert_distinct,
    lemma_insert_by_amount_sorted, lemma_insert_by_owner_sorted, lemma_drop_last_owners,
    lemma_without_owner, sum_amounts, lemma_last_amount_none, lemma_sum_insert, lemma_sum_without_owner,
    lemma_last_amount_bounded, lemma_insert_contains, lemma_without_owner_contains, lemma_contains_has_owner, lemma_drop_last_contains, lemma_sorted_above_last,
    lemma_drop_last_contains_exact,
};
use crate::nominator::{NominatorView, nominates, new_nominator, nominator_with, nominator_without, locked_amount};
use crate::candidate::{CandidateMetadata, CapacityStatus, NominationsView, nominations_with, nominations_without_lowest};
use crate::types::valid_config;
use crate::model::{
    StakingView, kick_nomination, add_bottom_nomination, add_top_nomination, candidate_add_nomination, rejects_nomination,
    nominate_error, nominate_post, nominator_after, staking_wf, lists_backed, lists_shaped, lists_disjoint,
    nominators_ordered, candidates_have_lists, join_candidates_error,
    candidate_summarised, candidates_summarised, nominations_backed, lists_belong_to_candidates,
    nominators_total, stakable_balance, free_balance_of, locks_match, lock_of, lists_ranked, bonds_mirrored,
    join_candidates_post,
};

verus! {

/// Adding a nomination to a list lengthens it by one.
pub proof fn lemma_nominations_with_len(n: NominationsView, b: Bond)
    ensures
        nominations_with(n, b).nominations.len() == n.nominations.len() + 1,
{
    lemma_amount_pos(n.nominations, b.amount);
}

/// The bonds of a list with `b` added are its bonds and `b`.
pub proof fn lemma_nominations_with_contains(n: NominationsView, b: Bond)
    ensures
        forall|y: Bond|
            #![trigger nominations_with(n, b).nominations.contains(y)]
            #![trigger n.nominations.contains(y)]
            nominations_with(n, b).nominations.contains(y) <==> (n.nominations.contains(y) || y == b),
{
    lemma_amount_pos(n.nominations, b.amount);
    lemma_insert_contains(n.nominations, crate::bond::amount_pos(n.nominations, b.amount) as int, b);
}

/// Adding a nomination to a list adds its owner, keeps the owners distinct
/// when it is new, and keeps the list ordered greatest to least.
pub proof fn lemma_nominations_with(n: NominationsView, b: Bond)
    ensures
        forall|x: u64|
            has_owner(nominations_with(n, b).nominations, x) <==> (has_owner(n.nominations, x) || x
                == b.owner),
        distinct_owners(n.nominations) && !has_owner(n.nominations, b.owner) ==> distinct_owners(
            nominations_with(n, b).nominations,
        ),
        sorted_by_amount(n.nominations) ==> sorted_by_amount(nominations_with(n, b).nominations),
{
    lemma_amount_pos(n.nominations, b.amount);
    let k = crate::bond::amount_pos(n.nominations, b.amount) as int;
    lemma_insert_owners(n.nominations, k, b);
    if distinct_owners(n.nominations) && !has_owner(n.nominations, b.owner) {
        lemma_insert_distinct(n.nominations, k, b);
    }
    if sorted_by_amount(n.nominations) {
        lemma_insert_by_amount_sorted(n.nominations, b);
    }
}

/// Removing a candidate from a nominator removes only that candidate and
/// keeps the order.
pub proof fn lemma_nominator_without(n: NominatorView, c: u64)
    ensures
        forall|x: u64|
            has_owner(nominator_without(n, c).nominations, x) <==> (has_owner(n.nominations, x) && x
                != c),
        sorted_by_owner(n.nominations) ==> sorted_by_owner(nominator_without(n, c).nominations),
{
    lemma_without_owner(n.nominations, c);
    lemma_last_amount_none(n.nominations, c);
}

/// Adding a new candidate to a nominator adds only that candidate and keeps
/// the order.
pub proof fn lemma_nominator_with(n: NominatorView, b: Bond)
    requires
        !has_owner(n.nominations, b.owner),
    ensures
        nominator_with(n, b).1,
        forall|x: u64|
            has_owner(nominator_with(n, b).0.nominations, x) <==> (has_owner(n.nominations, x) || x
                == b.owner),
        sorted_by_owner(n.nominations) ==> sorted_by_owner(nominator_with(n, b).0.nominations),
{
    lemma_owner_pos(n.nominations, b.owner);
    lemma_insert_owners(n.nominations, crate::bond::owner_pos(n.nominations, b.owner) as int, b);
    if sorted_by_owner(n.nominations) {
        lemma_insert_by_owner_sorted(n.nominations, b);
    }
}

/// A new nominator nominates exactly its first candidate.
pub proof fn lemma_new_nominator(id: u64, c: u64, amount: u128)
    ensures
        forall|x: u64| has_owner(new_nominator(id, c, amount).nominations, x) <==> x == c,
        sorted_by_owner(new_nominator(id, c, amount).nominations),
{
    let s = new_nominator(id, c, amount).nominations;
    assert forall|x: u64| has_owner(s, x) <==> x == c by {
        if x == c {
            assert(s[0].owner == c);
        }
    }
}

/// What kicking the bottom nomination `k` of `c` changes.
pub proof fn lemma_kick(s: StakingView, c: u64, k: Bond)
    requires
        s.nominators.contains_key(k.owner),
        nominates(s.nominators[k.owner], c),
        nominators_ordered(s),
        nominators_total(s),
    ensures
        ({
            let s1 = kick_nomination(s, c, k);
            &&& nominators_total(s1)
            &&& locks_match(s) ==> locks_match(s1)
            &&& s1.top == s.top
            &&& s1.bottom == s.bottom
            &&& s1.candidates == s.candidates
            &&& s1.pool == s.pool
            &&& s1.total == s.total
            &&& s1.free_balance == s.free_balance
            &&& s1.config == s.config
            &&& forall|x: u64|
                x != k.owner ==> (s1.nominators.contains_key(x) == s.nominators.contains_key(x) && (
                s.nominators.contains_key(x) ==> s1.nominators[x] == s.nominators[x]))
            &&& forall|c2: u64|
                c2 != c && nominates(s.nominators[k.owner], c2) ==> s1.nominators.contains_key(k.owner)
                    && nominates(s1.nominators[k.owner], c2)
            &&& forall|c2: u64|
                s1.nominators.contains_key(k.owner) && nominates(s1.nominators[k.owner], c2) ==> c2 != c
                    && nominates(s.nominators[k.owner], c2)
            &&& forall|y: Bond|
                s.nominators[k.owner].nominations.contains(y) && y.owner != c ==> s1.nominators.contains_key(
                    k.owner,
                ) && s1.nominators[k.owner].nominations.contains(y)
            &&& nominators_ordered(s1)
        }),
{
    let state = s.nominators[k.owner];
    lemma_without_owner_contains(state.nominations, c);
    lemma_contains_has_owner(state.nominations);
    lemma_last_amount_none(state.nominations, c);
    lemma_nominator_without(state, c);
    lemma_sum_without_owner(state.nominations, c);
    lemma_last_amount_bounded(state.nominations, c);
    let s1 = kick_nomination(s, c, k);
    assert forall|x: u64| #[trigger] s1.nominators.contains_key(x) implies s1.nominators[x].total
        == sum_amounts(s1.nominators[x].nominations) by {
        if x != k.owner {
            assert(s.nominators.contains_key(x));
        }
    }
    if state.nominations.len() == 1 {
        assert(state.nominations[0].owner == c) by {
            let j = choose|j: int| 0 <= j < state.nominations.len() && #[trigger] state.nominations[j].owner
                == c;
            assert(j == 0);
        }
        assert(state.nominations.drop_last() =~= Seq::<Bond>::empty());
        assert(sum_amounts(Seq::<Bond>::empty()) == 0);
        assert(locked_amount(nominator_without(state, c)) == 0);
    }
    assert forall|y: Bond| state.nominations.contains(y) && y.owner != c implies s1.nominators.contains_key(
        k.owner,
    ) && s1.nominators[k.owner].nominations.contains(y) by {
        assert(has_owner(state.nominations, y.owner));
        assert(nominates(state, y.owner));
    }
    if locks_match(s) {
        assert forall|x: u64| #[trigger] s1.nominators.contains_key(x) implies lock_of(s1, x) == locked_amount(
            s1.nominators[x],
        ) by {
            if x != k.owner {
                assert(s.nominators.contains_key(x));
            }
        }
        assert forall|x: u64| #[trigger] s1.locks.contains_key(x) implies s1.nominators.contains_key(x) by {
            if x != k.owner {
                assert(s.locks.contains_key(x));
            }
        }
    }
    assert forall|c2: u64|
        c2 != c && nominates(state, c2) implies s1.nominators.contains_key(k.owner) && nominates(
        s1.nominators[k.owner],
        c2,
    ) by {
        if state.nominations.len() == 1 {
            let i = choose|i: int| 0 <= i < state.nominations.len() && #[trigger] state.nominations[i].owner
                == c2;
            let j = choose|j: int| 0 <= j < state.nominations.len() && #[trigger] state.nominations[j].owner
                == c;
            assert(i == 0 && j == 0);
        }
    }
    assert forall|x: u64| #[trigger] s1.nominators.contains_key(x) implies sorted_by_owner(
        s1.nominators[x].nominations,
    ) by {
        if x != k.owner {
            assert(s.nominators.contains_key(x));
        }
    }
}


/// What putting `b` among the bottom nominations of `c` changes: the bottom
/// list of `c` gains `b` and, when it was full, loses its lowest bond, whose
/// owner is kicked; nothing else of the lists moves.
pub proof fn lemma_add_bottom(s: StakingView, c: u64, meta: CandidateMetadata, bumped: bool, b: Bond)
    requires
        valid_config(s.config),
        s.bottom.contains_key(c),
        lists_shaped(s.bottom),
        lists_backed(s, s.bottom),
        nominators_ordered(s),
        nominators_total(s),
        !has_owner(s.bottom[c].nominations, b.owner),
    ensures
        ({
            let (s1, m1) = add_bottom_nomination(s, c, meta, bumped, b);
            let bl = s.bottom[c].nominations;
            let kicked = bl.len() as u32 == s.config.max_bottom_nominations_per_candidate;
            let k = bl.last().owner;
            &&& nominators_total(s1)
            &&& locks_match(s) ==> locks_match(s1)
            &&& s1.top == s.top
            &&& s1.candidates == s.candidates
            &&& s1.pool == s.pool
            &&& s1.total == s.total
            &&& s1.free_balance == s.free_balance
            &&& s1.config == s.config
            &&& s1.bottom == s.bottom.insert(c, s1.bottom[c])
            &&& distinct_owners(s1.bottom[c].nominations)
            &&& sorted_by_amount(s1.bottom[c].nominations)
            &&& forall|x: u64|
                has_owner(s1.bottom[c].nominations, x) <==> ((has_owner(bl, x) && !(kicked && x == k))
                    || x == b.owner)
            &&& kicked ==> bl.len() > 0 && has_owner(bl, k)
            &&& forall|x: u64|
                !(kicked && x == k) ==> (s1.nominators.contains_key(x) == s.nominators.contains_key(x)
                    && (s.nominators.contains_key(x) ==> s1.nominators[x] == s.nominators[x]))
            &&& kicked ==> forall|c2: u64|
                c2 != c && s.nominators.contains_key(k) && nominates(s.nominators[k], c2)
                    ==> s1.nominators.contains_key(k) && nominates(s1.nominators[k], c2)
            &&& kicked ==> forall|c2: u64|
                s1.nominators.contains_key(k) && nominates(s1.nominators[k], c2) ==> c2 != c
                    && s.nominators.contains_key(k) && nominates(s.nominators[k], c2)
            &&& kicked ==> forall|y: Bond|
                s.nominators[k].nominations.contains(y) && y.owner != c ==> s1.nominators.contains_key(k)
                    && s1.nominators[k].nominations.contains(y)
            &&& forall|y: Bond| s1.bottom[c].nominations.contains(y) ==> bl.contains(y) || y == b
            &&& nominators_ordered(s1)
        }),
{
    let bottom = s.bottom[c];
    let bl = bottom.nominations;
    let max = s.config.max_bottom_nominations_per_candidate;
    assert(distinct_owners(bl) && sorted_by_amount(bl));
    if bl.len() as u32 == max {
        assert(bl.len() > 0);
        let kb = bl.last();
        assert(bl[bl.len() - 1].owner == kb.owner);
        assert(has_owner(bl, kb.owner));
        assert(s.nominators.contains_key(kb.owner) && nominates(s.nominators[kb.owner], c));
        lemma_kick(s, c, kb);
        lemma_drop_last_owners(bl);
        lemma_drop_last_contains(bl);
        let dropped = nominations_without_lowest(bottom);
        assert(!has_owner(dropped.nominations, b.owner));
        lemma_nominations_with(dropped, b);
        lemma_nominations_with_contains(dropped, b);
    } else {
        lemma_nominations_with(bottom, b);
        lemma_nominations_with_contains(bottom, b);
    }
}


/// `x`'s nominator state differs between `s` and `s1`.
pub open spec fn nominator_changed(s: StakingView, s1: StakingView, x: u64) -> bool {
    !(s1.nominators.contains_key(x) == s.nominators.contains_key(x) && (s.nominators.contains_key(x)
        ==> s1.nominators[x] == s.nominators[x]))
}

/// What adding the nomination of `n` to the lists of `c` leaves: only the
/// lists of `c` changed, they are well shaped and disjoint and hold `n`, and
/// every other owner in them was there before; a nominator whose state
/// changed was kicked out of the lists of `c` and keeps its other nominations.
pub open spec fn candidate_step_ok(s: StakingView, s1: StakingView, c: u64, b: Bond) -> bool {
    let n = b.owner;
    let t = s.top[c].nominations;
    let bl = s.bottom[c].nominations;
    let t1 = s1.top[c].nominations;
    let b1 = s1.bottom[c].nominations;
    &&& s1.candidates == s.candidates
    &&& s1.free_balance == s.free_balance
    &&& s1.config == s.config
    &&& s1.top == s.top.insert(c, s1.top[c])
    &&& s1.bottom == s.bottom.insert(c, s1.bottom[c])
    &&& distinct_owners(t1) && sorted_by_amount(t1)
    &&& distinct_owners(b1) && sorted_by_amount(b1)
    &&& forall|x: u64| has_owner(t1, x) ==> !has_owner(b1, x)
    &&& has_owner(t1, n) || has_owner(b1, n)
    &&& forall|x: u64|
        x != n && (has_owner(t1, x) || has_owner(b1, x)) ==> (has_owner(t, x) || has_owner(bl, x))
    &&& forall|x: u64|
        #[trigger] nominator_changed(s, s1, x) ==> {
            &&& x != n
            &&& !has_owner(t1, x)
            &&& !has_owner(b1, x)
            &&& forall|c2: u64|
                c2 != c && s.nominators.contains_key(x) && #[trigger] nominates(s.nominators[x], c2)
                    ==> s1.nominators.contains_key(x) && nominates(s1.nominators[x], c2)
            &&& forall|c2: u64|
                s1.nominators.contains_key(x) && #[trigger] nominates(s1.nominators[x], c2) ==> c2 != c
                    && s.nominators.contains_key(x) && nominates(s.nominators[x], c2)
            &&& forall|y: Bond|
                s.nominators.contains_key(x) && #[trigger] s.nominators[x].nominations.contains(y) && y.owner != c
                    ==> s1.nominators.contains_key(x) && s1.nominators[x].nominations.contains(y)
        }
    &&& forall|y: Bond|
        #![trigger t1.contains(y)]
        #![trigger b1.contains(y)]
        (t1.contains(y) || b1.contains(y)) ==> (t.contains(y) || bl.contains(y) || y == b)
    &&& forall|x: u64|
        !nominator_changed(s, s1, x) && (has_owner(t, x) || has_owner(bl, x)) ==> (has_owner(t1, x)
            || has_owner(b1, x))
    &&& nominators_ordered(s1)
    &&& nominators_total(s1)
    &&& locks_match(s) ==> locks_match(s1)
}

/// The facts about the lists of `c` in a well-formed state that adding a
/// nomination of a nominator `b.owner` outside them relies on.
pub open spec fn candidate_step_pre(s: StakingView, c: u64, b: Bond) -> bool {
    &&& valid_config(s.config)
    &&& s.top.contains_key(c)
    &&& s.bottom.contains_key(c)
    &&& lists_shaped(s.top)
    &&& lists_shaped(s.bottom)
    &&& lists_disjoint(s)
    &&& lists_backed(s, s.bottom)
    &&& nominators_ordered(s)
    &&& nominators_total(s)
    &&& !has_owner(s.top[c].nominations, b.owner)
    &&& !has_owner(s.bottom[c].nominations, b.owner)
}

/// Adding a nomination to the top of `c` leaves the lists of `c` as
/// [`candidate_step_ok`] says.
pub proof fn lemma_add_top(s: StakingView, c: u64, meta: CandidateMetadata, b: Bond)
    requires
        candidate_step_pre(s, c, b),
    ensures
        candidate_step_ok(s, add_top_nomination(s, c, meta, b).0, c, b),
{
    let top = s.top[c];
    let t = top.nominations;
    let bl = s.bottom[c].nominations;
    assert(distinct_owners(t) && sorted_by_amount(t));
    assert(distinct_owners(bl) && sorted_by_amount(bl));
    let (s2, m2, less) = add_top_nomination(s, c, meta, b);
    let t2 = s2.top[c].nominations;
    if t.len() as u32 == s.config.max_top_nominations_per_candidate {
        assert(t.len() > 0);
        let p = t.last();
        assert(t[t.len() - 1].owner == p.owner);
        assert(has_owner(t, p.owner));
        assert(!has_owner(bl, p.owner));
        lemma_add_bottom(s, c, meta, true, p);
        let (s1, m1) = add_bottom_nomination(s, c, meta, true, p);
        lemma_drop_last_owners(t);
        let top1 = nominations_without_lowest(top);
        assert(!has_owner(top1.nominations, b.owner));
        lemma_nominations_with(top1, b);
        lemma_nominations_with_contains(top1, b);
        lemma_drop_last_contains(t);
        assert(t.contains(p)) by {
            assert(t[t.len() - 1] == p);
        }
        let b2 = s2.bottom[c].nominations;
        assert(b2 == s1.bottom[c].nominations);
        assert forall|x: u64| has_owner(t2, x) implies !has_owner(b2, x) by {
            if x != b.owner {
                assert(has_owner(top1.nominations, x));
                assert(has_owner(t, x) && x != p.owner);
                assert(!has_owner(bl, x));
            }
        }
        assert forall|x: u64| nominator_changed(s, s2, x) implies {
            &&& x != b.owner
            &&& !has_owner(t2, x)
            &&& !has_owner(b2, x)
            &&& forall|c2: u64|
                c2 != c && s.nominators.contains_key(x) && nominates(s.nominators[x], c2)
                    ==> s2.nominators.contains_key(x) && nominates(s2.nominators[x], c2)
        } by {
            assert(s2.nominators == s1.nominators);
            assert(bl.len() as u32 == s.config.max_bottom_nominations_per_candidate && x == bl.last().owner);
            assert(has_owner(bl, x));
            assert(!has_owner(t, x));
            assert(x != p.owner);
        }
    } else {
        lemma_nominations_with(top, b);
        lemma_nominations_with_contains(top, b);
        assert forall|x: u64| has_owner(t2, x) implies !has_owner(bl, x) by {
            if x != b.owner {
                assert(has_owner(t, x));
            }
        }
        assert forall|x: u64| !nominator_changed(s, s2, x) by {}
        assert(s2.bottom =~= s.bottom.insert(c, s2.bottom[c]));
    }
}

/// Adding a nomination to `c`, top or bottom, leaves the lists of `c` as
/// [`candidate_step_ok`] says.
pub proof fn lemma_candidate_add(s: StakingView, c: u64, meta: CandidateMetadata, b: Bond)
    requires
        candidate_step_pre(s, c, b),
    ensures
        candidate_step_ok(s, candidate_add_nomination(s, c, meta, b).0, c, b),
{
    if meta.top_capacity == CapacityStatus::Full && !(meta.lowest_top_nomination_amount < b.amount) {
        let t = s.top[c].nominations;
        let bl = s.bottom[c].nominations;
        assert(distinct_owners(bl) && sorted_by_amount(bl));
        lemma_add_bottom(s, c, meta, false, b);
        let (s1, m1) = add_bottom_nomination(s, c, meta, false, b);
        assert(s1.top[c] == s.top[c]);
        assert(s1.top =~= s.top.insert(c, s1.top[c]));
        assert forall|x: u64| has_owner(t, x) implies !has_owner(s1.bottom[c].nominations, x) by {
            assert(!has_owner(bl, x));
        }
        assert forall|x: u64| nominator_changed(s, s1, x) implies {
            &&& x != b.owner
            &&& !has_owner(t, x)
            &&& !has_owner(s1.bottom[c].nominations, x)
            &&& forall|c2: u64|
                c2 != c && s.nominators.contains_key(x) && nominates(s.nominators[x], c2)
                    ==> s1.nominators.contains_key(x) && nominates(s1.nominators[x], c2)
        } by {
            assert(has_owner(bl, x));
        }
    } else {
        lemma_add_top(s, c, meta, b);
    }
}


/// The state of a nominator after it nominates `c`: it nominates `c` and
/// whatever it nominated before, ordered by candidate.
pub proof fn lemma_nominator_after(s: StakingView, n: u64, c: u64, amount: u128)
    requires
        nominators_ordered(s),
        nominators_total(s),
        stakable_balance(s, n) >= amount,
        s.nominators.contains_key(n) ==> !nominates(s.nominators[n], c),
    ensures
        nominator_after(s, n, c, amount).total == sum_amounts(nominator_after(s, n, c, amount).nominations),
        nominator_after(s, n, c, amount).total == if s.nominators.contains_key(n) {
            s.nominators[n].total + amount
        } else {
            amount as int
        },
        forall|y: Bond|
            #[trigger] nominator_after(s, n, c, amount).nominations.contains(y) <==> (y == Bond { owner: c, amount } || (
            s.nominators.contains_key(n) && s.nominators[n].nominations.contains(y))),
        forall|x: u64|
            has_owner(nominator_after(s, n, c, amount).nominations, x) <==> (x == c || (
            s.nominators.contains_key(n) && has_owner(s.nominators[n].nominations, x))),
        sorted_by_owner(nominator_after(s, n, c, amount).nominations),
{
    if s.nominators.contains_key(n) {
        let old = s.nominators[n];
        lemma_nominator_with(old, Bond { owner: c, amount });
        lemma_owner_pos(old.nominations, c);
        lemma_sum_insert(old.nominations, crate::bond::owner_pos(old.nominations, c) as int, Bond { owner: c, amount });
        lemma_insert_contains(old.nominations, crate::bond::owner_pos(old.nominations, c) as int, Bond { owner: c, amount });
        if amount > 0 {
            assert(old.total + amount <= free_balance_of(s, n));
        }
        assert(old.total.saturating_add(amount) == old.total + amount);
        assert(nominator_after(s, n, c, amount) == nominator_with(old, Bond { owner: c, amount }).0);
    } else {
        lemma_new_nominator(n, c, amount);
        let t = nominator_after(s, n, c, amount).nominations;
        assert(t.drop_last() =~= Seq::<Bond>::empty());
        assert(sum_amounts(Seq::<Bond>::empty()) == 0);
        assert(sum_amounts(t) == amount);
        assert forall|y: Bond| t.contains(y) <==> y == (Bond { owner: c, amount }) by {
            if y == (Bond { owner: c, amount }) {
                assert(t[0] == y);
            }
        }
    }
}

/// A nominator that passes the checks of a nomination is in neither list of
/// the candidate.
pub proof fn lemma_nominator_outside_lists(
    s: StakingView,
    n: u64,
    c: u64,
    amount: u128,
    candidate_nomination_count: u32,
    nomination_count: u32,
)
    requires
        staking_wf(s),
        nominate_error(s, n, c, amount, candidate_nomination_count, nomination_count) is None,
    ensures
        s.candidates.contains_key(c),
        s.top.contains_key(c),
        s.bottom.contains_key(c),
        !has_owner(s.top[c].nominations, n),
        !has_owner(s.bottom[c].nominations, n),
        s.nominators.contains_key(n) ==> !nominates(s.nominators[n], c),
{
    assert(s.candidates.contains_key(c));
    if has_owner(s.top[c].nominations, n) {
        assert(s.nominators.contains_key(n) && nominates(s.nominators[n], c));
    }
    if has_owner(s.bottom[c].nominations, n) {
        assert(s.nominators.contains_key(n) && nominates(s.nominators[n], c));
    }
}

/// One bond of the lists after a nomination is mirrored by its owner.
proof fn lemma_mirror_step(
    s: StakingView,
    s1: StakingView,
    f: StakingView,
    n: u64,
    c: u64,
    amount: u128,
    c2: u64,
    y: Bond,
    in_top: bool,
)
    requires
        staking_wf(s),
        candidate_step_ok(s, s1, c, Bond { owner: n, amount }),
        f.nominators == s1.nominators.insert(n, nominator_after(s, n, c, amount)),
        f.top == s1.top,
        f.bottom == s1.bottom,
        stakable_balance(s, n) >= amount,
        s.nominators.contains_key(n) ==> !nominates(s.nominators[n], c),
        !has_owner(s.top[c].nominations, n),
        !has_owner(s.bottom[c].nominations, n),
        s.top.contains_key(c),
        s.bottom.contains_key(c),
        if in_top {
            f.top.contains_key(c2) && f.top[c2].nominations.contains(y)
        } else {
            f.bottom.contains_key(c2) && f.bottom[c2].nominations.contains(y)
        },
    ensures
        f.nominators.contains_key(y.owner),
        f.nominators[y.owner].nominations.contains(Bond { owner: c2, amount: y.amount }),
{
    let x = y.owner;
    let m = Bond { owner: c2, amount: y.amount };
    let t = s.top[c].nominations;
    let bl = s.bottom[c].nominations;
    let t1 = s1.top[c].nominations;
    let b1 = s1.bottom[c].nominations;
    lemma_contains_has_owner(t);
    lemma_contains_has_owner(bl);
    lemma_contains_has_owner(t1);
    lemma_contains_has_owner(b1);
    if c2 != c {
        if in_top {
            assert(s.top.contains_key(c2) && f.top[c2] == s.top[c2]);
            assert(s.top[c2].nominations.contains(y));
        } else {
            assert(s.bottom.contains_key(c2) && f.bottom[c2] == s.bottom[c2]);
            assert(s.bottom[c2].nominations.contains(y));
        }
        assert(s.nominators.contains_key(x) && s.nominators[x].nominations.contains(m));
        if x == n {
            lemma_nominator_after(s, n, c, amount);
            assert(s.nominators[n].nominations.contains(m));
            assert(nominator_after(s, n, c, amount).nominations.contains(m));
        } else if nominator_changed(s, s1, x) {
            assert(s1.nominators.contains_key(x) && s1.nominators[x].nominations.contains(m));
        }
    } else {
        assert(t1.contains(y) || b1.contains(y));
        if y == (Bond { owner: n, amount }) {
            lemma_nominator_after(s, n, c, amount);
            assert(nominator_after(s, n, c, amount).nominations.contains(m));
        } else {
            assert(t.contains(y) || bl.contains(y));
            assert(has_owner(t, x) || has_owner(bl, x));
            assert(x != n);
            assert(has_owner(t1, x) || has_owner(b1, x));
            assert(!nominator_changed(s, s1, x));
            if t.contains(y) {
                assert(s.nominators.contains_key(x) && s.nominators[x].nominations.contains(m));
            } else {
                assert(s.nominators.contains_key(x) && s.nominators[x].nominations.contains(m));
            }
        }
    }
}

/// A nomination that passes its checks keeps the storage invariant
/// [`staking_wf`].
pub proof fn lemma_nominate_preserves_wf(
    s: StakingView,
    nominator: u64,
    candidate: u64,
    amount: u128,
    candidate_nomination_count: u32,
    nomination_count: u32,
)
    requires
        staking_wf(s),
        nominate_error(s, nominator, candidate, amount, candidate_nomination_count, nomination_count)
            is None,
    ensures
        staking_wf(nominate_post(s, nominator, candidate, amount)),
{
    let n = nominator;
    let c = candidate;
    let b = Bond { owner: n, amount };
    lemma_nominator_outside_lists(s, n, c, amount, candidate_nomination_count, nomination_count);
    lemma_candidate_add(s, c, s.candidates[c], b);
    assert(s.top.contains_key(c));
    lemma_candidate_add_summarised(s, c, s.candidates[c], b);
    lemma_nominator_after(s, n, c, amount);
    let (s1, meta, position, less) = candidate_add_nomination(s, c, s.candidates[c], b);
    let st = nominator_after(s, n, c, amount);
    let f = nominate_post(s, n, c, amount);
    assert(f.top == s1.top && f.bottom == s1.bottom);
    assert(f.nominators == s1.nominators.insert(n, st));
    let t1 = s1.top[c].nominations;
    let b1 = s1.bottom[c].nominations;

    assert(candidates_have_lists(f));
    assert(candidates_summarised(f)) by {
        assert forall|c2: u64| #[trigger] f.candidates.contains_key(c2) implies candidate_summarised(
            f.candidates[c2],
            f.top[c2],
            f.bottom[c2],
            f.config,
        ) by {
            if c2 != c {
                assert(s.candidates.contains_key(c2));
            }
        }
    }
    assert(lists_shaped(f.top)) by {
        assert forall|c2: u64| #[trigger] f.top.contains_key(c2) implies distinct_owners(
            f.top[c2].nominations,
        ) && sorted_by_amount(f.top[c2].nominations) by {
            if c2 != c {
                assert(s.top.contains_key(c2));
            }
        }
    }
    assert(lists_shaped(f.bottom)) by {
        assert forall|c2: u64| #[trigger] f.bottom.contains_key(c2) implies distinct_owners(
            f.bottom[c2].nominations,
        ) && sorted_by_amount(f.bottom[c2].nominations) by {
            if c2 != c {
                assert(s.bottom.contains_key(c2));
            }
        }
    }
    assert(lists_disjoint(f)) by {
        assert forall|c2: u64, x: u64|
            f.top.contains_key(c2) && f.bottom.contains_key(c2) && #[trigger] has_owner(
                f.top[c2].nominations,
                x,
            ) implies !has_owner(f.bottom[c2].nominations, x) by {
            if c2 != c {
                assert(s.top.contains_key(c2) && s.bottom.contains_key(c2));
            }
        }
    }
    assert(lists_backed(f, f.top)) by {
        assert forall|c2: u64, x: u64|
            f.top.contains_key(c2) && #[trigger] has_owner(f.top[c2].nominations, x) implies f.nominators.contains_key(
            x,
        ) && nominates(f.nominators[x], c2) by {
            if x == n {
                assert(f.nominators[n] == st);
                if c2 != c {
                    assert(s.top.contains_key(c2) && f.top[c2] == s.top[c2]);
                    assert(s.nominators.contains_key(n) && nominates(s.nominators[n], c2));
                    assert(has_owner(st.nominations, c2));
                } else {
                    assert(has_owner(st.nominations, c));
                }
            } else if c2 == c {
                assert(!nominator_changed(s, s1, x));
                assert(f.nominators[x] == s1.nominators[x]);
                if has_owner(s.top[c].nominations, x) {
                    assert(s.nominators.contains_key(x) && nominates(s.nominators[x], c));
                } else {
                    assert(has_owner(s.bottom[c].nominations, x));
                    assert(s.nominators.contains_key(x) && nominates(s.nominators[x], c));
                }
            } else {
                assert(s.top.contains_key(c2) && f.top[c2] == s.top[c2]);
                assert(s.nominators.contains_key(x) && nominates(s.nominators[x], c2));
                if nominator_changed(s, s1, x) {
                    assert(candidate_step_ok(s, s1, c, b));
                    assert(s1.nominators.contains_key(x) && nominates(s1.nominators[x], c2));
                }
                assert(f.nominators[x] == s1.nominators[x]);
            }
        }
    }
    assert(lists_backed(f, f.bottom)) by {
        assert forall|c2: u64, x: u64|
            f.bottom.contains_key(c2) && #[trigger] has_owner(f.bottom[c2].nominations, x) implies f.nominators.contains_key(
            x,
        ) && nominates(f.nominators[x], c2) by {
            if x == n {
                assert(f.nominators[n] == st);
                if c2 != c {
                    assert(s.bottom.contains_key(c2) && f.bottom[c2] == s.bottom[c2]);
                    assert(s.nominators.contains_key(n) && nominates(s.nominators[n], c2));
                    assert(has_owner(st.nominations, c2));
                } else {
                    assert(has_owner(st.nominations, c));
                }
            } else if c2 == c {
                assert(!nominator_changed(s, s1, x));
                assert(f.nominators[x] == s1.nominators[x]);
                if has_owner(s.top[c].nominations, x) {
                    assert(s.nominators.contains_key(x) && nominates(s.nominators[x], c));
                } else {
                    assert(has_owner(s.bottom[c].nominations, x));
                    assert(s.nominators.contains_key(x) && nominates(s.nominators[x], c));
                }
            } else {
                assert(s.bottom.contains_key(c2) && f.bottom[c2] == s.bottom[c2]);
                assert(s.nominators.contains_key(x) && nominates(s.nominators[x], c2));
                if nominator_changed(s, s1, x) {
                    assert(candidate_step_ok(s, s1, c, b));
                    assert(s1.nominators.contains_key(x) && nominates(s1.nominators[x], c2));
                }
                assert(f.nominators[x] == s1.nominators[x]);
            }
        }
    }
    assert(nominators_ordered(f)) by {
        assert forall|x: u64| #[trigger] f.nominators.contains_key(x) implies sorted_by_owner(
            f.nominators[x].nominations,
        ) by {
            if x != n {
                assert(s1.nominators.contains_key(x));
            }
        }
    }
    assert(locks_match(f)) by {
        assert forall|x: u64| #[trigger] f.nominators.contains_key(x) implies lock_of(f, x) == locked_amount(
            f.nominators[x],
        ) by {
            if x != n {
                assert(s1.nominators.contains_key(x));
            }
        }
        assert forall|x: u64| #[trigger] f.locks.contains_key(x) implies f.nominators.contains_key(x) by {
            if x != n {
                assert(s1.locks.contains_key(x));
            }
        }
    }
    assert(nominators_total(f)) by {
        assert forall|x: u64| #[trigger] f.nominators.contains_key(x) implies f.nominators[x].total
            == sum_amounts(f.nominators[x].nominations) by {
            if x != n {
                assert(s1.nominators.contains_key(x));
            }
        }
    }
    assert(lists_belong_to_candidates(f)) by {
        assert forall|c2: u64| #[trigger] f.top.contains_key(c2) implies f.candidates.contains_key(c2) by {
            if c2 != c {
                assert(s.top.contains_key(c2));
            }
        }
        assert forall|c2: u64| #[trigger] f.bottom.contains_key(c2) implies f.candidates.contains_key(c2) by {
            if c2 != c {
                assert(s.bottom.contains_key(c2));
            }
        }
    }
    assert(bonds_mirrored(f, f.top)) by {
        assert forall|c2: u64, y: Bond| f.top.contains_key(c2) && #[trigger] f.top[c2].nominations.contains(y)
            implies f.nominators.contains_key(y.owner) && f.nominators[y.owner].nominations.contains(
            Bond { owner: c2, amount: y.amount },
        ) by {
            lemma_mirror_step(s, s1, f, n, c, amount, c2, y, true);
        }
    }
    assert(bonds_mirrored(f, f.bottom)) by {
        assert forall|c2: u64, y: Bond|
            f.bottom.contains_key(c2) && #[trigger] f.bottom[c2].nominations.contains(y) implies f.nominators.contains_key(
            y.owner,
        ) && f.nominators[y.owner].nominations.contains(Bond { owner: c2, amount: y.amount }) by {
            lemma_mirror_step(s, s1, f, n, c, amount, c2, y, false);
        }
    }
    assert(nominations_backed(f)) by {
        assert forall|x: u64, c2: u64|
            f.nominators.contains_key(x) && #[trigger] nominates(f.nominators[x], c2) implies f.top.contains_key(
            c2,
        ) && f.bottom.contains_key(c2) && (has_owner(f.top[c2].nominations, x) || has_owner(
            f.bottom[c2].nominations,
            x,
        )) by {
            if x == n {
                assert(f.nominators[n] == st);
                if c2 != c {
                    assert(has_owner(st.nominations, c2));
                    assert(s.nominators.contains_key(n) && nominates(s.nominators[n], c2));
                    assert(f.top[c2] == s.top[c2] && f.bottom[c2] == s.bottom[c2]);
                }
            } else {
                assert(f.nominators[x] == s1.nominators[x]);
                assert(s1.nominators.contains_key(x));
                if nominator_changed(s, s1, x) {
                    assert(c2 != c && s.nominators.contains_key(x) && nominates(s.nominators[x], c2));
                    assert(f.top[c2] == s.top[c2] && f.bottom[c2] == s.bottom[c2]);
                } else {
                    assert(s.nominators.contains_key(x) && s1.nominators[x] == s.nominators[x]);
                    assert(nominates(s.nominators[x], c2));
                    if c2 != c {
                        assert(f.top[c2] == s.top[c2] && f.bottom[c2] == s.bottom[c2]);
                    } else {
                        assert(has_owner(s.top[c].nominations, x) || has_owner(s.bottom[c].nominations, x));
                    }
                }
            }
        }
    }
}


/// In a well-formed state the lowest bottom nomination of a candidate with
/// a full bottom list belongs to a nominator.
pub proof fn lemma_wf_kickable(s: StakingView, c: u64)
    requires
        staking_wf(s),
        s.bottom.contains_key(c),
    ensures
        s.bottom[c].nominations.len() as u32 == s.config.max_bottom_nominations_per_candidate
            ==> s.nominators.contains_key(s.bottom[c].nominations.last().owner),
{
    let bl = s.bottom[c].nominations;
    if bl.len() as u32 == s.config.max_bottom_nominations_per_candidate {
        assert(bl.len() > 0);
        assert(bl[bl.len() - 1].owner == bl.last().owner);
        assert(has_owner(bl, bl.last().owner));
    }
}


/// The invariant only reads the configuration, the candidates, the lists,
/// the nominators and the locks: a change of anything else keeps it.
pub proof fn lemma_wf_frame(s: StakingView, t: StakingView)
    requires
        staking_wf(s),
        t.config == s.config,
        t.candidates == s.candidates,
        t.top == s.top,
        t.bottom == s.bottom,
        t.nominators == s.nominators,
        t.locks == s.locks,
    ensures
        staking_wf(t),
{
}


/// A candidate joins with empty lists: the invariant holds after it.
pub proof fn lemma_join_candidates_preserves_wf(s: StakingView, who: u64, bond: u128)
    requires
        staking_wf(s),
        join_candidates_error(s, who, bond) is None,
    ensures
        staking_wf(join_candidates_post(s, who, bond)),
{
    let f = join_candidates_post(s, who, bond);
    assert(lists_shaped(f.top)) by {
        assert forall|c: u64| #[trigger] f.top.contains_key(c) implies distinct_owners(f.top[c].nominations)
            && sorted_by_amount(f.top[c].nominations) by {
            if c != who {
                assert(s.top.contains_key(c));
            }
        }
    }
    assert(lists_shaped(f.bottom)) by {
        assert forall|c: u64| #[trigger] f.bottom.contains_key(c) implies distinct_owners(
            f.bottom[c].nominations,
        ) && sorted_by_amount(f.bottom[c].nominations) by {
            if c != who {
                assert(s.bottom.contains_key(c));
            }
        }
    }
    assert(lists_disjoint(f)) by {
        assert forall|c: u64, x: u64|
            f.top.contains_key(c) && f.bottom.contains_key(c) && #[trigger] has_owner(f.top[c].nominations, x)
                implies !has_owner(f.bottom[c].nominations, x) by {
            if c != who {
                assert(s.top.contains_key(c) && s.bottom.contains_key(c));
            }
        }
    }
    assert(lists_backed(f, f.top)) by {
        assert forall|c: u64, x: u64| f.top.contains_key(c) && #[trigger] has_owner(f.top[c].nominations, x)
            implies f.nominators.contains_key(x) && nominates(f.nominators[x], c) by {
            if c != who {
                assert(s.top.contains_key(c));
            }
        }
    }
    assert(lists_backed(f, f.bottom)) by {
        assert forall|c: u64, x: u64|
            f.bottom.contains_key(c) && #[trigger] has_owner(f.bottom[c].nominations, x) implies f.nominators.contains_key(
            x,
        ) && nominates(f.nominators[x], c) by {
            if c != who {
                assert(s.bottom.contains_key(c));
            }
        }
    }
}


/// Adding a nomination keeps the candidate's metadata a summary of its
/// lists, and keeps the lists ranked.
pub proof fn lemma_candidate_add_summarised(s: StakingView, c: u64, meta: CandidateMetadata, b: Bond)
    requires
        valid_config(s.config),
        candidate_summarised(meta, s.top[c], s.bottom[c], s.config),
        sorted_by_amount(s.top[c].nominations),
        !rejects_nomination(meta, b.amount),
    ensures
        ({
            let (s1, m1, position, less) = candidate_add_nomination(s, c, meta, b);
            &&& s1.config == s.config
            &&& candidate_summarised(m1, s1.top[c], s1.bottom[c], s.config)
        }),
{
    let top = s.top[c];
    let bottom = s.bottom[c];
    let t = top.nominations;
    let bl = bottom.nominations;
    let max_top = s.config.max_top_nominations_per_candidate;
    let max_bottom = s.config.max_bottom_nominations_per_candidate;
    lemma_nominations_with_len(top, b);
    lemma_nominations_with_len(bottom, b);
    lemma_nominations_with_contains(top, b);
    lemma_nominations_with_contains(bottom, b);
    if t.len() > 0 {
        let p = t.last();
        lemma_sorted_above_last(t);
        lemma_drop_last_contains(t);
        lemma_nominations_with_len(bottom, p);
        lemma_nominations_with_contains(bottom, p);
        lemma_nominations_with_len(nominations_without_lowest(top), b);
        lemma_nominations_with_contains(nominations_without_lowest(top), b);
        if bl.len() > 0 {
            lemma_nominations_with_len(nominations_without_lowest(bottom), p);
            lemma_nominations_with_contains(nominations_without_lowest(bottom), p);
        }
    }
    if bl.len() > 0 {
        lemma_drop_last_contains(bl);
        lemma_nominations_with_len(nominations_without_lowest(bottom), b);
        lemma_nominations_with_contains(nominations_without_lowest(bottom), b);
    }
    let (s1, m1, position, less) = candidate_add_nomination(s, c, meta, b);
    let t1 = s1.top[c].nominations;
    let b1 = s1.bottom[c].nominations;
    if meta.top_capacity == CapacityStatus::Full {
        assert(t.len() == max_top);
        let p = t.last();
        if meta.lowest_top_nomination_amount < b.amount {
            assert(t.len() as u32 == max_top);
            let (s2, m2) = add_bottom_nomination(s, c, meta, true, p);
            assert(s2.top == s.top);
            if bl.len() == max_bottom {
                assert(meta.bottom_capacity == CapacityStatus::Full);
            } else {
                assert(meta.bottom_capacity != CapacityStatus::Full);
            }
            let top1 = nominations_without_lowest(top);
            assert(t1 == nominations_with(top1, b).nominations);
            assert forall|x: Bond, y: Bond| #[trigger] t1.contains(x) && #[trigger] b1.contains(y) implies x.amount
                >= y.amount by {
                assert(nominations_with(top1, b).nominations.contains(x));
                if x != b {
                    assert(top1.nominations.contains(x));
                    assert(t.contains(x));
                }
                assert(x.amount >= p.amount);
                if y != p {
                    assert(bl.contains(y));
                    assert(t.contains(p));
                }
            }
        } else {
            if bl.len() == max_bottom {
                assert(meta.bottom_capacity == CapacityStatus::Full);
            }
            assert(t1 == t);
            assert forall|x: Bond, y: Bond| #[trigger] t1.contains(x) && #[trigger] b1.contains(y) implies x.amount
                >= y.amount by {
                assert(x.amount >= p.amount);
                if y != b {
                    assert(bl.contains(y));
                }
            }
        }
    } else {
        assert(t.len() < max_top);
        assert(bl.len() == 0);
        assert(b1 == bl);
        assert forall|x: Bond, y: Bond| #[trigger] t1.contains(x) && #[trigger] b1.contains(y) implies x.amount
            >= y.amount by {
            assert(bl.contains(y));
        }
    }
}


/// What adding the nomination `b` to the candidate `c` of a well-formed
/// state does: the candidate keeps its bond, the staked total and the
/// candidates are untouched until the caller updates them, the lowest bottom
/// bond is kicked exactly when the bottom list was full (then both lists
/// were full, and it was below `b`), only the kicked owner's state changes,
/// the two lists hold the old bonds and `b` less the kicked one, and `b`
/// lands in the list that the reported position names.
pub proof fn lemma_candidate_add_effect(s: StakingView, c: u64, b: Bond)
    requires
        staking_wf(s),
        s.candidates.contains_key(c),
        !has_owner(s.top[c].nominations, b.owner),
        !has_owner(s.bottom[c].nominations, b.owner),
        !rejects_nomination(s.candidates[c], b.amount),
    ensures
        ({
            let meta = s.candidates[c];
            let (s1, m1, position, less) = candidate_add_nomination(s, c, meta, b);
            let t = s.top[c].nominations;
            let bl = s.bottom[c].nominations;
            let t1 = s1.top[c].nominations;
            let b1 = s1.bottom[c].nominations;
            let kicked = bl.len() == s.config.max_bottom_nominations_per_candidate;
            &&& m1.bond == meta.bond
            &&& s1.total == s.total
            &&& s1.candidates == s.candidates
            &&& kicked == (meta.top_capacity == CapacityStatus::Full && meta.bottom_capacity
                == CapacityStatus::Full)
            &&& (less is Some) == kicked
            &&& kicked ==> bl.len() > 0 && bl.contains(bl.last()) && less == Some(bl.last().amount)
                && bl.last().amount < b.amount
            &&& s1.nominators == if kicked {
                kick_nomination(s, c, bl.last()).nominators
            } else {
                s.nominators
            }
            &&& s1.events == if kicked {
                kick_nomination(s, c, bl.last()).events
            } else {
                s.events
            }
            &&& m1.status == meta.status
            &&& forall|y: Bond|
                #![trigger t1.contains(y)]
                #![trigger b1.contains(y)]
                (t1.contains(y) || b1.contains(y)) <==> ((t.contains(y) || bl.contains(y) || y == b) && !(
                kicked && y == bl.last()))
            &&& position is AddedToTop ==> t1.contains(b)
            &&& position is AddedToBottom ==> b1.contains(b)
        }),
{
    let meta = s.candidates[c];
    let top = s.top[c];
    let bottom = s.bottom[c];
    let t = top.nominations;
    let bl = bottom.nominations;
    let max_top = s.config.max_top_nominations_per_candidate;
    let max_bottom = s.config.max_bottom_nominations_per_candidate;
    assert(candidate_summarised(meta, top, bottom, s.config));
    assert(s.top.contains_key(c) && s.bottom.contains_key(c));
    assert(distinct_owners(t) && sorted_by_amount(t));
    assert(distinct_owners(bl) && sorted_by_amount(bl));
    lemma_candidate_add(s, c, meta, b);
    lemma_contains_has_owner(t);
    lemma_contains_has_owner(bl);
    let kicked = bl.len() == max_bottom;
    if kicked {
        assert(bl.len() > 0);
        assert(bl.contains(bl.last())) by {
            assert(bl[bl.len() - 1] == bl.last());
        }
        assert(t.len() == max_top);
        assert(meta.bottom_capacity == CapacityStatus::Full);
        assert(!has_owner(t, bl.last().owner));
        assert(!t.contains(bl.last()));
        assert(b != bl.last());
        lemma_drop_last_contains_exact(bl);
    } else {
        assert(meta.bottom_capacity != CapacityStatus::Full);
    }
    if meta.top_capacity == CapacityStatus::Full {
        assert(t.len() == max_top);
        assert(t.len() > 0);
        let p = t.last();
        assert(t.contains(p)) by {
            assert(t[t.len() - 1] == p);
        }
        if kicked {
            lemma_sorted_above_last(bl);
            assert(p.amount >= bl.last().amount);
        }
        if meta.lowest_top_nomination_amount < b.amount {
            assert(t.len() as u32 == max_top);
            assert(!has_owner(bl, p.owner));
            let (s2, m2) = add_bottom_nomination(s, c, meta, true, p);
            lemma_add_bottom(s, c, meta, true, p);
            lemma_drop_last_contains_exact(t);
            let top1 = nominations_without_lowest(top);
            lemma_nominations_with_contains(top1, b);
            let bottom1 = if kicked {
                nominations_without_lowest(bottom)
            } else {
                bottom
            };
            lemma_nominations_with_contains(bottom1, p);
            let (s1, m1, position, less) = candidate_add_nomination(s, c, meta, b);
            assert(s1.top[c] == nominations_with(top1, b));
            assert(s1.bottom[c] == nominations_with(bottom1, p));
            assert forall|y: Bond|
                (s1.top[c].nominations.contains(y) || s1.bottom[c].nominations.contains(y)) <==> ((
                t.contains(y) || bl.contains(y) || y == b) && !(kicked && y == bl.last())) by {
                if y == p {
                    assert(t.contains(y));
                }
            }
        } else {
            let bottom1 = if kicked {
                nominations_without_lowest(bottom)
            } else {
                bottom
            };
            lemma_nominations_with_contains(bottom1, b);
            let (s1, m1, position, less) = candidate_add_nomination(s, c, meta, b);
            assert(s1.top[c] == top);
            assert(s1.bottom[c] == nominations_with(bottom1, b));
        }
    } else {
        assert(t.len() < max_top);
        assert(bl.len() == 0);
        lemma_nominations_with_contains(top, b);
        let (s1, m1, position, less) = candidate_add_nomination(s, c, meta, b);
        assert(s1.top[c] == nominations_with(top, b));
        assert(s1.bottom[c] == bottom);
    }
}


/// Adding `b` to a list adds its amount to the sum; a list whose total is
/// the sum of its amounts stays so while the new sum fits.
pub proof fn lemma_nominations_with_total(n: NominationsView, b: Bond)
    ensures
        sum_amounts(nominations_with(n, b).nominations) == sum_amounts(n.nominations) + b.amount,
        n.total == sum_amounts(n.nominations) && sum_amounts(n.nominations) + b.amount <= u128::MAX
            ==> nominations_with(n, b).total == sum_amounts(nominations_with(n, b).nominations),
{
    lemma_amount_pos(n.nominations, b.amount);
    lemma_sum_insert(n.nominations, crate::bond::amount_pos(n.nominations, b.amount) as int, b);
}

/// Dropping the lowest bond of a list whose total is the sum of its amounts
/// keeps it so.
pub proof fn lemma_without_lowest_total(n: NominationsView)
    requires
        n.total == sum_amounts(n.nominations),
        n.nominations.len() > 0,
    ensures
        sum_amounts(nominations_without_lowest(n).nominations) == sum_amounts(n.nominations)
            - n.nominations.last().amount,
        nominations_without_lowest(n).total == sum_amounts(nominations_without_lowest(n).nominations),
{
    crate::bond::lemma_sum_nonneg(n.nominations.drop_last());
}

} // verus!
