//! What holds of every nomination, era change and setting change.
use vstd::prelude::*;
use crate::bond::{Bond, has_owner};
use crate::nominator::nominates;
use crate::candidate::CapacityStatus;
use crate::types::{Origin, Error, AdminSettings, Event, StakingConfig};
use crate::model::{
    StakingView, staking_wf, nominate_error, nominate_post, stakable_balance, free_balance_of,
    on_initialize_post, admin_setting_error, admin_setting_post, add_top_nomination,
    add_bottom_nomination,
};
use crate::preservation::{
    lemma_nominator_outside_lists, lemma_candidate_add, lemma_nominator_after, lemma_candidate_add_effect,
    lemma_nominations_with_total, lemma_without_lowest_total,
};
use crate::bond::sum_amounts;
use crate::candidate::{nominations_with, nominations_without_lowest};
use crate::accounting::{
    total_accounted, nomination_net_stake, lemma_nominate_accounted, lemma_join_accounted, lemma_sum_over_empty,
    bond_of, total_of,
};
use crate::model::{join_candidates_error, join_candidates_post, candidate_add_nomination};
use crate::pallet::genesis;
use crate::growth::{
    CollatorScore, has_score, one_score_each, points_for, points_sum, lemma_add_score, lemma_merge_scores,
    lemma_total_score, era_should_update,
};
use crate::model::{points_of, growth_of, award_points_post};
use crate::types::NominatorAdded;

verus! {

/// After a nomination, the nominator holds it: it nominates the candidate
/// and everything it nominated before, and nothing else.
pub proof fn law_nominator_holds_nomination(
    s: StakingView,
    nominator: u64,
    candidate: u64,
    amount: u128,
    candidate_nomination_count: u32,
    nomination_count: u32,
)
    requires
        staking_wf(s),
        nominate_error(s, nominator, candidate, amount, candidate_nomination_count, nomination_count) is None,
    ensures
        ({
            let f = nominate_post(s, nominator, candidate, amount);
            &&& f.nominators.contains_key(nominator)
            &&& forall|c: u64|
                nominates(f.nominators[nominator], c) <==> (c == candidate || (s.nominators.contains_key(
                    nominator,
                ) && nominates(s.nominators[nominator], c)))
            &&& f.nominators[nominator].total == if s.nominators.contains_key(nominator) {
                s.nominators[nominator].total.saturating_add(amount)
            } else {
                amount
            }
        }),
{
    lemma_nominator_outside_lists(s, nominator, candidate, amount, candidate_nomination_count, nomination_count);
    lemma_nominator_after(s, nominator, candidate, amount);
}

/// After a nomination, the nominator is in exactly one of the candidate's
/// two lists.
pub proof fn law_nominator_placed_once(
    s: StakingView,
    nominator: u64,
    candidate: u64,
    amount: u128,
    candidate_nomination_count: u32,
    nomination_count: u32,
)
    requires
        staking_wf(s),
        nominate_error(s, nominator, candidate, amount, candidate_nomination_count, nomination_count) is None,
    ensures
        ({
            let f = nominate_post(s, nominator, candidate, amount);
            has_owner(f.top[candidate].nominations, nominator) != has_owner(f.bottom[candidate].nominations, nominator)
        }),
{
    lemma_nominator_outside_lists(s, nominator, candidate, amount, candidate_nomination_count, nomination_count);
    lemma_candidate_add(s, candidate, s.candidates[candidate], Bond { owner: nominator, amount });
}

/// A nomination takes exactly its amount out of what the nominator can
/// still stake.
pub proof fn law_stakable_balance_reduced(
    s: StakingView,
    nominator: u64,
    candidate: u64,
    amount: u128,
    candidate_nomination_count: u32,
    nomination_count: u32,
)
    requires
        staking_wf(s),
        nominate_error(s, nominator, candidate, amount, candidate_nomination_count, nomination_count) is None,
    ensures
        stakable_balance(nominate_post(s, nominator, candidate, amount), nominator) == stakable_balance(s, nominator)
            - amount,
{
    lemma_nominator_outside_lists(s, nominator, candidate, amount, candidate_nomination_count, nomination_count);
    lemma_nominator_after(s, nominator, candidate, amount);
    lemma_candidate_add(s, candidate, s.candidates[candidate], Bond { owner: nominator, amount });
    let f = nominate_post(s, nominator, candidate, amount);
    assert(f.free_balance == s.free_balance);
    assert(free_balance_of(f, nominator) == free_balance_of(s, nominator));
}

/// A nomination grows the staked total by its amount, less the lowest
/// bottom nomination that it kicks out when both lists of the candidate are
/// full; a kicked nomination is always below the new one, so the total never
/// shrinks.
pub proof fn law_staked_total_grows(
    s: StakingView,
    nominator: u64,
    candidate: u64,
    amount: u128,
    candidate_nomination_count: u32,
    nomination_count: u32,
)
    requires
        staking_wf(s),
        nominate_error(s, nominator, candidate, amount, candidate_nomination_count, nomination_count) is None,
    ensures
        ({
            let meta = s.candidates[candidate];
            let both_full = meta.top_capacity == CapacityStatus::Full && meta.bottom_capacity
                == CapacityStatus::Full;
            &&& both_full ==> meta.lowest_bottom_nomination_amount < amount
            &&& nominate_post(s, nominator, candidate, amount).total == s.total.saturating_add(
                if both_full {
                    (amount - meta.lowest_bottom_nomination_amount) as u128
                } else {
                    amount
                },
            )
        }),
{
    let c = candidate;
    let meta = s.candidates[c];
    let b = Bond { owner: nominator, amount };
    assert(s.candidates.contains_key(c));
    let top = s.top[c];
    let bottom = s.bottom[c];
    let max_top = s.config.max_top_nominations_per_candidate;
    if meta.top_capacity == CapacityStatus::Full {
        assert(top.nominations.len() == max_top);
        if meta.bottom_capacity == CapacityStatus::Full {
            let bl = bottom.nominations;
            assert(bl.len() > 0);
            assert(bl.contains(bl.last())) by {
                assert(bl[bl.len() - 1] == bl.last());
            }
            assert(top.nominations.contains(top.nominations.last())) by {
                assert(top.nominations[top.nominations.len() - 1] == top.nominations.last());
            }
        }
        if meta.lowest_top_nomination_amount < amount {
            let (s2, m2) = add_bottom_nomination(s, c, meta, true, top.nominations.last());
            assert(s2.total == s.total);
            assert(add_top_nomination(s, c, meta, b).0.total == s.total);
        } else {
            assert(add_bottom_nomination(s, c, meta, false, b).0.total == s.total);
        }
    } else {
        assert(top.nominations.len() < max_top);
        assert(add_top_nomination(s, c, meta, b).0.total == s.total);
    }
}

/// A block starts at most one era, and moves the growth period forward by
/// at most one.
pub proof fn law_block_steps(s: StakingView, now: u64)
    ensures
        ({
            let f = on_initialize_post(s, now);
            &&& f.block_number == now
            &&& f.era.current == s.era.current || f.era.current == s.era.current.saturating_add(1)
            &&& f.growth_period.index == s.growth_period.index || f.growth_period.index
                == s.growth_period.index.saturating_add(1)
        }),
{
}

/// A growth period that a block opens starts with the era it pays out:
/// the era that began `reward_payment_delay` eras before the new one.
pub proof fn law_growth_period_opens_at_payout(s: StakingView, now: u64)
    ensures
        ({
            let f = on_initialize_post(s, now);
            f.growth_period != s.growth_period ==> f.era.current > s.config.reward_payment_delay
                && f.growth_period.start_era_index == f.era.current - s.config.reward_payment_delay
        }),
{
}

/// Only the root origin may change a setting, whatever the value.
pub proof fn law_admin_requires_root(s: StakingView, origin: Origin, value: AdminSettings)
    requires
        origin != Origin::Root,
    ensures
        admin_setting_error(s, origin, value) == Some(Error::BadOrigin),
{
}

/// A setting that was applied reads back as the value given.
pub proof fn law_admin_setting_read_back(s: StakingView, value: AdminSettings)
    ensures
        ({
            let f = admin_setting_post(s, value);
            match value {
                AdminSettings::Delay(d) => f.delay == d,
                AdminSettings::MinCollatorStake(v) => f.min_collator_stake == v,
                AdminSettings::MinNominatorStake(v) => f.min_total_nominator_stake == v,
            }
        }),
{
}


/// A pallet that has just been set up has nothing at stake, and that is
/// accounted for.
pub proof fn law_genesis_accounted(
    config: StakingConfig,
    min_collator_stake: u128,
    min_total_nominator_stake: u128,
    delay: u32,
)
    ensures
        total_accounted(genesis(config, min_collator_stake, min_total_nominator_stake, delay)),
{
    let g = genesis(config, min_collator_stake, min_total_nominator_stake, delay);
    assert(g.candidates.dom() =~= Set::<u64>::empty());
    assert(g.nominators.dom() =~= Set::<u64>::empty());
    lemma_sum_over_empty(bond_of(g.candidates));
    lemma_sum_over_empty(total_of(g.nominators));
}

/// A nomination keeps the staked total equal to what the candidates bonded
/// plus what the nominators nominated: the total grows by the nomination's
/// net stake, the nominator's total by its amount, and the owner of a kicked
/// nomination loses its amount. (It fails only where adding the net stake
/// to the total overflows, and the total saturates.)
pub proof fn law_nomination_keeps_total_accounted(
    s: StakingView,
    nominator: u64,
    candidate: u64,
    amount: u128,
    candidate_nomination_count: u32,
    nomination_count: u32,
)
    requires
        staking_wf(s),
        total_accounted(s),
        nominate_error(s, nominator, candidate, amount, candidate_nomination_count, nomination_count) is None,
        s.total + nomination_net_stake(s, candidate, amount) <= u128::MAX,
    ensures
        total_accounted(nominate_post(s, nominator, candidate, amount)),
{
    lemma_nominate_accounted(s, nominator, candidate, amount, candidate_nomination_count, nomination_count);
}

/// A candidate joining keeps the staked total equal to what the candidates
/// bonded plus what the nominators nominated. (It fails only where adding
/// the bond to the total overflows, and the total saturates.)
pub proof fn law_join_keeps_total_accounted(s: StakingView, who: u64, bond: u128)
    requires
        total_accounted(s),
        join_candidates_error(s, who, bond) is None,
        s.total + bond <= u128::MAX,
    ensures
        total_accounted(join_candidates_post(s, who, bond)),
{
    lemma_join_accounted(s, who, bond);
}

/// A nomination that kicks a bond out kicks the lowest bottom bond of the
/// candidate, and only when both its lists were full; that bond is always
/// below the new nomination.
pub proof fn law_kicked_below_nomination(
    s: StakingView,
    nominator: u64,
    candidate: u64,
    amount: u128,
    candidate_nomination_count: u32,
    nomination_count: u32,
)
    requires
        staking_wf(s),
        nominate_error(s, nominator, candidate, amount, candidate_nomination_count, nomination_count) is None,
    ensures
        ({
            let meta = s.candidates[candidate];
            let bl = s.bottom[candidate].nominations;
            let less = candidate_add_nomination(s, candidate, meta, Bond { owner: nominator, amount }).3;
            &&& (less is Some) == (meta.top_capacity == CapacityStatus::Full && meta.bottom_capacity
                == CapacityStatus::Full)
            &&& less is Some ==> bl.len() > 0 && less == Some(bl.last().amount) && bl.last().amount < amount
        }),
{
    lemma_nominator_outside_lists(s, nominator, candidate, amount, candidate_nomination_count, nomination_count);
    lemma_candidate_add_effect(s, candidate, Bond { owner: nominator, amount });
}

/// After a nomination the two lists of the candidate hold its old bonds and
/// the new one, less the lowest bottom bond when the bottom list was full;
/// the lists of every other candidate are unchanged.
pub proof fn law_nomination_lists(
    s: StakingView,
    nominator: u64,
    candidate: u64,
    amount: u128,
    candidate_nomination_count: u32,
    nomination_count: u32,
)
    requires
        staking_wf(s),
        nominate_error(s, nominator, candidate, amount, candidate_nomination_count, nomination_count) is None,
    ensures
        ({
            let f = nominate_post(s, nominator, candidate, amount);
            let t = s.top[candidate].nominations;
            let bl = s.bottom[candidate].nominations;
            let bottom_full = bl.len() == s.config.max_bottom_nominations_per_candidate;
            &&& forall|y: Bond|
                #![trigger f.top[candidate].nominations.contains(y)]
                #![trigger f.bottom[candidate].nominations.contains(y)]
                (f.top[candidate].nominations.contains(y) || f.bottom[candidate].nominations.contains(y)) <==> ((
                t.contains(y) || bl.contains(y) || y == Bond { owner: nominator, amount }) && !(bottom_full && y
                == bl.last()))
            &&& f.top == s.top.insert(candidate, f.top[candidate])
            &&& f.bottom == s.bottom.insert(candidate, f.bottom[candidate])
        }),
{
    let b = Bond { owner: nominator, amount };
    lemma_nominator_outside_lists(s, nominator, candidate, amount, candidate_nomination_count, nomination_count);
    lemma_candidate_add_effect(s, candidate, b);
    lemma_candidate_add(s, candidate, s.candidates[candidate], b);
}

/// The position that the `Nomination` event reports is `AddedToTop` exactly
/// when the nominator is in the candidate's top list afterwards.
pub proof fn law_position_names_list(
    s: StakingView,
    nominator: u64,
    candidate: u64,
    amount: u128,
    candidate_nomination_count: u32,
    nomination_count: u32,
)
    requires
        staking_wf(s),
        nominate_error(s, nominator, candidate, amount, candidate_nomination_count, nomination_count) is None,
    ensures
        ({
            let f = nominate_post(s, nominator, candidate, amount);
            &&& f.events.len() > 0
            &&& f.events.last() matches Event::Nomination { nominator_position, .. } && (nominator_position is AddedToTop
                <==> has_owner(f.top[candidate].nominations, nominator))
        }),
{
    let b = Bond { owner: nominator, amount };
    lemma_nominator_outside_lists(s, nominator, candidate, amount, candidate_nomination_count, nomination_count);
    lemma_candidate_add_effect(s, candidate, b);
    lemma_candidate_add(s, candidate, s.candidates[candidate], b);
    let (s1, m1, position, less) = candidate_add_nomination(s, candidate, s.candidates[candidate], b);
    let t1 = s1.top[candidate].nominations;
    let b1 = s1.bottom[candidate].nominations;
    crate::bond::lemma_contains_has_owner(t1);
    crate::bond::lemma_contains_has_owner(b1);
    if position is AddedToBottom {
        assert(has_owner(b1, nominator));
    }
}


/// A nomination keeps the total of each list of the candidate equal to the
/// sum of the list's amounts, where it was so before. (A list total
/// saturates, so this fails only where a new sum does not fit in a `u128`.)
pub proof fn law_list_totals_kept(
    s: StakingView,
    nominator: u64,
    candidate: u64,
    amount: u128,
    candidate_nomination_count: u32,
    nomination_count: u32,
)
    requires
        staking_wf(s),
        nominate_error(s, nominator, candidate, amount, candidate_nomination_count, nomination_count) is None,
        s.top[candidate].total == sum_amounts(s.top[candidate].nominations),
        s.bottom[candidate].total == sum_amounts(s.bottom[candidate].nominations),
        sum_amounts(nominate_post(s, nominator, candidate, amount).top[candidate].nominations) <= u128::MAX,
        sum_amounts(nominate_post(s, nominator, candidate, amount).bottom[candidate].nominations) <= u128::MAX,
    ensures
        ({
            let f = nominate_post(s, nominator, candidate, amount);
            &&& f.top[candidate].total == sum_amounts(f.top[candidate].nominations)
            &&& f.bottom[candidate].total == sum_amounts(f.bottom[candidate].nominations)
        }),
{
    let c = candidate;
    let b = Bond { owner: nominator, amount };
    let meta = s.candidates[c];
    lemma_nominator_outside_lists(s, nominator, c, amount, candidate_nomination_count, nomination_count);
    lemma_candidate_add_effect(s, c, b);
    let top = s.top[c];
    let bottom = s.bottom[c];
    let t = top.nominations;
    let bl = bottom.nominations;
    let kicked = bl.len() == s.config.max_bottom_nominations_per_candidate;
    let (s1, m1, position, less) = candidate_add_nomination(s, c, meta, b);
    let f = nominate_post(s, nominator, c, amount);
    assert(f.top[c] == s1.top[c] && f.bottom[c] == s1.bottom[c]);
    let bottom1 = if kicked {
        nominations_without_lowest(bottom)
    } else {
        bottom
    };
    if kicked {
        lemma_without_lowest_total(bottom);
    }
    crate::bond::lemma_sum_nonneg(t);
    crate::bond::lemma_sum_nonneg(bottom1.nominations);
    assert(s.candidates.contains_key(c));
    if meta.top_capacity == CapacityStatus::Full {
        assert(t.len() == s.config.max_top_nominations_per_candidate);
        assert(t.len() > 0);
        let p = t.last();
        if meta.lowest_top_nomination_amount < amount {
            assert(t.len() as u32 == s.config.max_top_nominations_per_candidate);
            let top1 = nominations_without_lowest(top);
            lemma_without_lowest_total(top);
            crate::bond::lemma_sum_nonneg(top1.nominations);
            assert(s1.top[c] == nominations_with(top1, b));
            assert(s1.bottom[c] == nominations_with(bottom1, p));
            lemma_nominations_with_total(top1, b);
            lemma_nominations_with_total(bottom1, p);
        } else {
            assert(s1.top[c] == top);
            assert(s1.bottom[c] == nominations_with(bottom1, b));
            lemma_nominations_with_total(bottom1, b);
        }
    } else {
        assert(bl.len() == 0);
        assert(s1.top[c] == nominations_with(top, b));
        assert(s1.bottom[c] == bottom);
        lemma_nominations_with_total(top, b);
    }
}


/// A block, an award of points and a change of setting leave the staked
/// total, the candidates and the nominators as they were, so the total stays
/// accounted for.
pub proof fn law_other_calls_keep_total_accounted(
    s: StakingView,
    now: u64,
    era: u32,
    collator: u64,
    points: u32,
    value: AdminSettings,
)
    requires
        total_accounted(s),
    ensures
        total_accounted(on_initialize_post(s, now)),
        total_accounted(crate::model::award_points_post(s, era, collator, points)),
        total_accounted(admin_setting_post(s, value)),
{
    let f = on_initialize_post(s, now);
    assert(f.total == s.total && f.candidates == s.candidates && f.nominators == s.nominators);
}


/// A block that ends the current era starts the next one: the era count
/// goes up by one, the era starts at this block and keeps its length, the
/// staked total at its start is recorded, and `NewEra` reports it. Any
/// other block changes no era, stake record or growth record, and reports
/// nothing.
pub proof fn law_era_start(s: StakingView, now: u64)
    ensures
        ({
            let f = on_initialize_post(s, now);
            let ends = now.saturating_sub(s.era.first) >= s.era.length;
            let new_era = s.era.current.saturating_add(1);
            &&& ends ==> f.era == crate::growth::EraInfo { current: new_era, first: now, length: s.era.length }
            &&& ends ==> f.staked == s.staked.insert(new_era, s.total)
            &&& ends ==> f.events == s.events.push(
                Event::NewEra {
                    starting_block: now,
                    era: new_era,
                    selected_collators_number: s.pool.len() as u32,
                    total_balance: s.total,
                },
            )
            &&& !ends ==> f.era == s.era && f.staked == s.staked && f.events == s.events && f.growth == s.growth
                && f.growth_period == s.growth_period
            &&& f.total == s.total && f.candidates == s.candidates && f.nominators == s.nominators
        }),
{
}

/// With the nominator's own checks passed, a known candidate and a high
/// enough count of its nominations, a nomination is accepted exactly when
/// there is room for it: unless both lists of the candidate are full and
/// the amount beats neither the lowest top nor the lowest bottom
/// nomination, in which case it is refused for want of room.
pub proof fn law_nomination_accepted_iff_room(
    s: StakingView,
    nominator: u64,
    candidate: u64,
    amount: u128,
    candidate_nomination_count: u32,
    nomination_count: u32,
)
    requires
        staking_wf(s),
        s.candidates.contains_key(candidate),
        candidate_nomination_count >= s.candidates[candidate].nomination_count,
        stakable_balance(s, nominator) >= amount,
        s.nominators.contains_key(nominator) ==> {
            let held = s.nominators[nominator].nominations.len();
            &&& amount >= s.config.min_nomination_per_collator
            &&& held <= nomination_count
            &&& held < s.config.max_nominations_per_nominator
            &&& !nominates(s.nominators[nominator], candidate)
        },
        !s.nominators.contains_key(nominator) ==> amount >= s.min_total_nominator_stake && !s.candidates.contains_key(
            nominator,
        ),
    ensures
        ({
            let t = s.top[candidate].nominations;
            let bl = s.bottom[candidate].nominations;
            let no_room = t.len() == s.config.max_top_nominations_per_candidate && bl.len()
                == s.config.max_bottom_nominations_per_candidate && amount <= t.last().amount && amount
                <= bl.last().amount;
            let e = nominate_error(s, nominator, candidate, amount, candidate_nomination_count, nomination_count);
            &&& no_room ==> e == Some(Error::CannotNominateLessThanOrEqualToLowestBottomWhenFull)
            &&& !no_room ==> e is None
        }),
{
    law_room_check(s, nominator, candidate, amount, candidate_nomination_count, nomination_count);
    if s.nominators.contains_key(nominator) {
        let held = s.nominators[nominator].nominations.len();
        assert(held as u32 == held);
    }
}

/// The room check of a nomination: it is refused for want of room only
/// when both lists of the candidate are full and the amount beats neither
/// the lowest top nor the lowest bottom nomination; such an amount is
/// always refused. An amount above the lowest bottom nomination is never
/// refused for want of room.
pub proof fn law_room_check(
    s: StakingView,
    nominator: u64,
    candidate: u64,
    amount: u128,
    candidate_nomination_count: u32,
    nomination_count: u32,
)
    requires
        staking_wf(s),
        s.candidates.contains_key(candidate),
    ensures
        ({
            let t = s.top[candidate].nominations;
            let bl = s.bottom[candidate].nominations;
            let no_room = t.len() == s.config.max_top_nominations_per_candidate && bl.len()
                == s.config.max_bottom_nominations_per_candidate && amount <= t.last().amount && amount
                <= bl.last().amount;
            let e = nominate_error(s, nominator, candidate, amount, candidate_nomination_count, nomination_count);
            &&& e == Some(Error::CannotNominateLessThanOrEqualToLowestBottomWhenFull) ==> no_room
            &&& no_room ==> e is Some
            &&& bl.len() > 0 && amount > bl.last().amount ==> e != Some(
                Error::CannotNominateLessThanOrEqualToLowestBottomWhenFull,
            )
        }),
{
    let meta = s.candidates[candidate];
    let t = s.top[candidate].nominations;
    let bl = s.bottom[candidate].nominations;
    assert(crate::model::candidate_summarised(meta, s.top[candidate], s.bottom[candidate], s.config));
    if t.len() == s.config.max_top_nominations_per_candidate {
        assert(meta.top_capacity == CapacityStatus::Full);
    }
    if bl.len() == s.config.max_bottom_nominations_per_candidate {
        assert(meta.bottom_capacity == CapacityStatus::Full);
        assert(bl.len() > 0);
        assert(t.len() == s.config.max_top_nominations_per_candidate);
    }
    if meta.top_capacity == CapacityStatus::Full {
        assert(t.len() == s.config.max_top_nominations_per_candidate);
    }
    if meta.bottom_capacity == CapacityStatus::Full {
        assert(bl.len() == s.config.max_bottom_nominations_per_candidate);
    }
}

/// When a nomination lands in the top list, the position it reports is
/// `AddedToTop` with the candidate's counted total after the call: its bond
/// plus its whole top total.
pub proof fn law_position_reports_counted_total(
    s: StakingView,
    nominator: u64,
    candidate: u64,
    amount: u128,
    candidate_nomination_count: u32,
    nomination_count: u32,
)
    requires
        staking_wf(s),
        nominate_error(s, nominator, candidate, amount, candidate_nomination_count, nomination_count) is None,
    ensures
        ({
            let f = nominate_post(s, nominator, candidate, amount);
            f.events.last() matches Event::Nomination {
                nominator_position: NominatorAdded::AddedToTop { new_total },
                ..
            } ==> new_total == f.candidates[candidate].total_counted && new_total
                == f.candidates[candidate].bond.saturating_add(f.top[candidate].total)
        }),
{
    crate::preservation::lemma_nominate_preserves_wf(
        s,
        nominator,
        candidate,
        amount,
        candidate_nomination_count,
        nomination_count,
    );
    let f = nominate_post(s, nominator, candidate, amount);
    assert(f.candidates.contains_key(candidate));
}

/// Only the root origin may change a setting. It may set any delay of at
/// least one era, whatever the current delay, any candidate minimum, and a
/// nominator minimum no lower than the least nomination per collator; every
/// other value is refused as not valid.
pub proof fn law_admin_setting_validity(s: StakingView, value: AdminSettings)
    ensures
        admin_setting_error(s, Origin::Root, value) == match value {
            AdminSettings::Delay(d) => if d == 0 {
                Some(Error::AdminSettingsValueIsNotValid)
            } else {
                None
            },
            AdminSettings::MinCollatorStake(_) => None,
            AdminSettings::MinNominatorStake(v) => if v < s.config.min_nomination_per_collator {
                Some(Error::AdminSettingsValueIsNotValid)
            } else {
                None
            },
        },
{
}

/// Awarding points keeps one score per collator in the era: the collator
/// awarded gets a score holding its points plus the new ones (saturated at
/// the largest `u32`), every other collator keeps its points, and other
/// eras are untouched.
pub proof fn law_award_points(s: StakingView, era: u32, collator: u64, points: u32)
    requires
        one_score_each(points_of(s, era)),
    ensures
        ({
            let f = award_points_post(s, era, collator, points);
            let before = points_of(s, era);
            let after = points_of(f, era);
            &&& one_score_each(after)
            &&& forall|c: u64| has_score(after, c) <==> (has_score(before, c) || c == collator)
            &&& forall|c: u64| c != collator ==> points_for(after, c) == points_for(before, c)
            &&& points_for(after, collator) == if points_for(before, collator) + points <= u32::MAX {
                points_for(before, collator) + points
            } else {
                u32::MAX as int
            }
            &&& forall|e: u32| e != era ==> points_of(f, e) == points_of(s, e)
        }),
{
    lemma_add_score(points_of(s, era), CollatorScore { collator, value: points });
}

/// A block that pays out an era records its scores in the growth period
/// it fills: one score per collator; every collator that scored in the
/// paid-out era has a score there, next to those the period already had,
/// and no other; and, while the points fit in a `u32`, each collator's
/// points add up and the period's total points are the sum of its scores.
pub proof fn law_payout_records_scores(s: StakingView, now: u64)
    requires
        forall|e: u32| one_score_each(#[trigger] points_of(s, e)),
        one_score_each(growth_of(s, s.growth_period.index).collator_scores),
    ensures
        ({
            let f = on_initialize_post(s, now);
            let new_era = s.era.current.saturating_add(1);
            let paid = era_should_update(s.era, now) && new_era > s.config.reward_payment_delay;
            let e = (new_era - s.config.reward_payment_delay) as u32;
            let opened = s.growth_period.index == 0 || e >= s.growth_period.start_era_index.saturating_add(
                s.config.eras_per_growth_period,
            );
            let scored = points_of(s, e);
            let stake = if e == new_era {
                s.total
            } else {
                crate::model::staked_at(s, e)
            };
            let before = growth_of(s, s.growth_period.index);
            let after = growth_of(f, f.growth_period.index);
            &&& paid ==> f.growth == s.growth.insert(f.growth_period.index, after)
            &&& paid && opened ==> f.growth_period == crate::growth::GrowthPeriodInfo {
                start_era_index: e,
                index: s.growth_period.index.saturating_add(1),
            } && after.number_of_accumulations == 1 && after.total_stake_accumulated == stake
                && after.total_staker_reward == s.reward_pot && after.collator_scores == scored
            &&& paid && !opened ==> f.growth_period == s.growth_period && after.number_of_accumulations
                == before.number_of_accumulations.saturating_add(1) && after.total_stake_accumulated
                == before.total_stake_accumulated.saturating_add(stake) && after.total_staker_reward
                == before.total_staker_reward.saturating_add(s.reward_pot)
            &&& paid ==> one_score_each(after.collator_scores)
            &&& paid ==> forall|c: u64|
                has_score(after.collator_scores, c) <==> (has_score(scored, c) || (!opened && has_score(
                    before.collator_scores,
                    c,
                )))
            &&& paid && opened && points_sum(scored) <= u32::MAX ==> after.total_points == points_sum(
                after.collator_scores,
            ) && forall|c: u64| points_for(after.collator_scores, c) == points_for(scored, c)
            &&& paid && !opened && before.total_points == points_sum(before.collator_scores) && points_sum(
                before.collator_scores,
            ) + points_sum(scored) <= u32::MAX ==> after.total_points == points_sum(after.collator_scores)
                && forall|c: u64|
                points_for(after.collator_scores, c) == points_for(before.collator_scores, c) + points_for(
                    scored,
                    c,
                )
            &&& !paid ==> f.growth == s.growth && f.growth_period == s.growth_period
        }),
{
    let new_era = s.era.current.saturating_add(1);
    let e = (new_era - s.config.reward_payment_delay) as u32;
    let scored = points_of(s, e);
    let before = growth_of(s, s.growth_period.index);
    assert(one_score_each(scored));
    lemma_total_score(scored);
    lemma_total_score(before.collator_scores);
    lemma_merge_scores(before.collator_scores, scored);
}


/// A nomination reports, in order: when it kicks the lowest bottom bond of
/// the candidate, a `NominationKicked` for that bond's owner and amount,
/// then a `NominatorLeft` when that was the owner's only nomination; and
/// last, a `Nomination` of the nominator, the amount and the candidate.
pub proof fn law_nomination_events(
    s: StakingView,
    nominator: u64,
    candidate: u64,
    amount: u128,
    candidate_nomination_count: u32,
    nomination_count: u32,
)
    requires
        staking_wf(s),
        nominate_error(s, nominator, candidate, amount, candidate_nomination_count, nomination_count) is None,
    ensures
        ({
            let f = nominate_post(s, nominator, candidate, amount);
            let bl = s.bottom[candidate].nominations;
            let k = bl.last();
            let kicked = bl.len() == s.config.max_bottom_nominations_per_candidate;
            let kicked_event = Event::NominationKicked {
                nominator: k.owner,
                candidate,
                unstaked_amount: k.amount,
            };
            let reported = if !kicked {
                s.events
            } else if s.nominators[k.owner].nominations.len() == 1 {
                s.events.push(kicked_event).push(Event::NominatorLeft { nominator: k.owner, unstaked_amount: k.amount })
            } else {
                s.events.push(kicked_event)
            };
            &&& f.events.len() == reported.len() + 1
            &&& f.events.drop_last() == reported
            &&& f.events.last() matches Event::Nomination { nominator: n, locked_amount: a, candidate: c, .. } && n
                == nominator && a == amount && c == candidate
        }),
{
    let b = Bond { owner: nominator, amount };
    lemma_nominator_outside_lists(s, nominator, candidate, amount, candidate_nomination_count, nomination_count);
    lemma_candidate_add_effect(s, candidate, b);
    let f = nominate_post(s, nominator, candidate, amount);
    assert(f.events.drop_last() =~= candidate_add_nomination(s, candidate, s.candidates[candidate], b).0.events);
}

/// A nomination keeps the pool entry of an active candidate equal to its
/// counted total, where it was so before, and leaves every other pool entry
/// as it was.
pub proof fn law_pool_follows_counted_total(
    s: StakingView,
    nominator: u64,
    candidate: u64,
    amount: u128,
    candidate_nomination_count: u32,
    nomination_count: u32,
)
    requires
        staking_wf(s),
        nominate_error(s, nominator, candidate, amount, candidate_nomination_count, nomination_count) is None,
        s.candidates[candidate].status == crate::candidate::CollatorStatus::Active ==> s.pool.contains_key(candidate)
            && s.pool[candidate] == s.candidates[candidate].total_counted,
    ensures
        ({
            let f = nominate_post(s, nominator, candidate, amount);
            &&& f.candidates[candidate].status == s.candidates[candidate].status
            &&& f.candidates[candidate].status == crate::candidate::CollatorStatus::Active ==> f.pool.contains_key(
                candidate,
            ) && f.pool[candidate] == f.candidates[candidate].total_counted
            &&& forall|c2: u64|
                c2 != candidate ==> (f.pool.contains_key(c2) == s.pool.contains_key(c2) && (s.pool.contains_key(c2)
                    ==> f.pool[c2] == s.pool[c2]))
        }),
{
    let c = candidate;
    let b = Bond { owner: nominator, amount };
    let meta = s.candidates[c];
    lemma_nominator_outside_lists(s, nominator, c, amount, candidate_nomination_count, nomination_count);
    lemma_candidate_add_effect(s, c, b);
    let t = s.top[c].nominations;
    assert(s.candidates.contains_key(c));
    if meta.top_capacity == CapacityStatus::Full {
        assert(t.len() == s.config.max_top_nominations_per_candidate);
        if meta.lowest_top_nomination_amount < amount {
            assert(t.len() as u32 == s.config.max_top_nominations_per_candidate);
            let (s2, m2) = add_bottom_nomination(s, c, meta, true, t.last());
            assert(m2.total_counted == meta.total_counted);
            assert(m2.status == meta.status);
        } else {
            let (s2, m2) = add_bottom_nomination(s, c, meta, false, b);
            assert(m2.total_counted == meta.total_counted);
        }
    }
}


/// An account may join the candidates exactly when it is neither a
/// candidate nor a nominator, its bond reaches the candidate minimum, and
/// its free balance covers the bond. It then is a candidate with that bond,
/// counting just its bond, with no nominations and empty lists, in the pool
/// with its bond; the staked total grows by the bond (saturated), nothing
/// else changes among candidates and nominators, and the join is reported
/// with the new total.
pub proof fn law_join_candidates(s: StakingView, who: u64, bond: u128)
    ensures
        join_candidates_error(s, who, bond) is None <==> (!s.candidates.contains_key(who)
            && !s.nominators.contains_key(who) && bond >= s.min_collator_stake && free_balance_of(s, who) >= bond),
        ({
            let f = join_candidates_post(s, who, bond);
            &&& f.candidates.contains_key(who)
            &&& f.candidates[who].bond == bond
            &&& f.candidates[who].total_counted == bond
            &&& f.candidates[who].nomination_count == 0
            &&& f.candidates[who].status == crate::candidate::CollatorStatus::Active
            &&& f.top[who].nominations.len() == 0 && f.top[who].total == 0
            &&& f.bottom[who].nominations.len() == 0 && f.bottom[who].total == 0
            &&& f.pool.contains_key(who) && f.pool[who] == bond
            &&& f.total == s.total.saturating_add(bond)
            &&& forall|c: u64|
                c != who ==> f.candidates.contains_key(c) == s.candidates.contains_key(c) && (
                s.candidates.contains_key(c) ==> f.candidates[c] == s.candidates[c])
            &&& f.nominators == s.nominators
            &&& f.events == s.events.push(
                Event::JoinedCollatorCandidates { account: who, amount_locked: bond, new_total_amt_locked: f.total },
            )
        }),
{
}


/// Every era's scores and every growth record's scores hold one score per
/// collator.
pub open spec fn scores_one_each(s: StakingView) -> bool {
    &&& forall|e: u32| one_score_each(#[trigger] points_of(s, e))
    &&& forall|i: u32| one_score_each(#[trigger] growth_of(s, i).collator_scores)
}

/// One score per collator holds from the start, and awards of points and
/// blocks keep it.
pub proof fn law_scores_one_each_kept(
    s: StakingView,
    config: StakingConfig,
    min_collator_stake: u128,
    min_total_nominator_stake: u128,
    delay: u32,
    era: u32,
    collator: u64,
    points: u32,
    now: u64,
)
    requires
        scores_one_each(s),
    ensures
        scores_one_each(genesis(config, min_collator_stake, min_total_nominator_stake, delay)),
        scores_one_each(award_points_post(s, era, collator, points)),
        scores_one_each(on_initialize_post(s, now)),
{
    let g = genesis(config, min_collator_stake, min_total_nominator_stake, delay);
    assert forall|i: u32| one_score_each(#[trigger] growth_of(g, i).collator_scores) by {}
    lemma_add_score(points_of(s, era), CollatorScore { collator, value: points });
    let a = award_points_post(s, era, collator, points);
    assert forall|e: u32| one_score_each(#[trigger] points_of(a, e)) by {
        if e != era {
            assert(points_of(a, e) == points_of(s, e));
        }
    }
    assert forall|i: u32| one_score_each(#[trigger] growth_of(a, i).collator_scores) by {
        assert(growth_of(a, i) == growth_of(s, i));
    }
    law_payout_records_scores(s, now);
    let f = on_initialize_post(s, now);
    assert forall|e: u32| one_score_each(#[trigger] points_of(f, e)) by {
        assert(points_of(f, e) == points_of(s, e));
    }
    assert forall|i: u32| one_score_each(#[trigger] growth_of(f, i).collator_scores) by {
        assert(growth_of(s, i).collator_scores == growth_of(s, i).collator_scores);
        if f.growth != s.growth {
            if i != f.growth_period.index {
                assert(growth_of(f, i) == growth_of(s, i));
            }
        }
    }
}

} // verus!
