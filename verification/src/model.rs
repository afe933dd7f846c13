//! The mathematical state of the pallet and what a nomination does to it.
use vstd::prelude::*;
use crate::bond::{Bond, has_owner, distinct_owners, sorted_by_owner, sorted_by_amount, sum_amounts};
use crate::nominator::{NominatorView, nominates, new_nominator, nominator_with, nominator_without, locked_amount};
use crate::candidate::{
    CandidateMetadata, CapacityStatus, CollatorStatus, NominationsView, nominations_with, empty_nominations,
    new_candidate, lowest_amount, highest_amount, capacity,
    nominations_without_lowest, with_top_data, with_bottom_data, with_one_more_nomination,
};
use crate::types::{StakingConfig, Event, Error, NominatorAdded, AdminSettings, Origin, valid_config};
use crate::growth::{
    CollatorScore, EraInfo, GrowthPeriodInfo, GrowthInfoView, new_growth, next_era, era_should_update,
    add_score, total_score, opens_growth_period, first_growth, accumulate_growth,
};

verus! {

/// The storage of the pallet, as values.
pub struct StakingView {
    pub config: StakingConfig,
    /// The free balance of each account (an account that is absent has none).
    pub free_balance: Map<u64, u128>,
    /// The amount that the nominator lock holds on each account (a
    /// candidate's own bond is not held by this lock).
    pub locks: Map<u64, u128>,
    pub nominators: Map<u64, NominatorView>,
    pub candidates: Map<u64, CandidateMetadata>,
    pub top: Map<u64, NominationsView>,
    pub bottom: Map<u64, NominationsView>,
    /// The amount counted for each active candidate.
    pub pool: Map<u64, u128>,
    /// The total amount locked for staking.
    pub total: u128,
    pub min_total_nominator_stake: u128,
    pub min_collator_stake: u128,
    pub delay: u32,
    pub events: Seq<Event>,
    /// The number of the current block.
    pub block_number: u64,
    pub era: EraInfo,
    /// The total staked when each era started.
    pub staked: Map<u32, u128>,
    /// The points that collators scored in each era.
    pub awarded: Map<u32, Seq<CollatorScore>>,
    /// The reward available to stakers.
    pub reward_pot: u128,
    pub growth_period: GrowthPeriodInfo,
    pub growth: Map<u32, GrowthInfoView>,
}

/// The free balance of `who`.
pub open spec fn free_balance_of(s: StakingView, who: u64) -> u128 {
    if s.free_balance.contains_key(who) {
        s.free_balance[who]
    } else {
        0
    }
}

/// The part of the free balance of `who` that it has not nominated yet.
pub open spec fn stakable_balance(s: StakingView, who: u64) -> u128 {
    if s.nominators.contains_key(who) {
        free_balance_of(s, who).saturating_sub(s.nominators[who].total)
    } else {
        free_balance_of(s, who)
    }
}

/// `locks` with the lock of `who` set to `amount`; a lock of nothing is removed.
pub open spec fn set_lock(locks: Map<u64, u128>, who: u64, amount: u128) -> Map<u64, u128> {
    if amount == 0 {
        locks.remove(who)
    } else {
        locks.insert(who, amount)
    }
}

/// `s` after the bottom nomination `kicked` of `candidate` was kicked: its
/// owner loses that nomination and its lock follows; an owner left with no
/// nomination is no longer a nominator.
pub open spec fn kick_nomination(s: StakingView, candidate: u64, kicked: Bond) -> StakingView {
    let state = s.nominators[kicked.owner];
    let leaving = state.nominations.len() == 1;
    let remaining = nominator_without(state, candidate);
    let kicked_event = Event::NominationKicked {
        nominator: kicked.owner,
        candidate,
        unstaked_amount: kicked.amount,
    };
    StakingView {
        nominators: if leaving {
            s.nominators.remove(kicked.owner)
        } else {
            s.nominators.insert(kicked.owner, remaining)
        },
        locks: set_lock(s.locks, kicked.owner, locked_amount(remaining)),
        events: if leaving {
            s.events.push(kicked_event).push(
                Event::NominatorLeft { nominator: kicked.owner, unstaked_amount: kicked.amount },
            )
        } else {
            s.events.push(kicked_event)
        },
        ..s
    }
}

/// `s` and the metadata `meta` of `candidate` after `bond` was put among the
/// bottom nominations of `candidate`. A full bottom list first loses its
/// lowest nomination, which is kicked. The count of nominations grows unless
/// a nomination was kicked or `bond` was moved down from the top.
pub open spec fn add_bottom_nomination(
    s: StakingView,
    candidate: u64,
    meta: CandidateMetadata,
    bumped_from_top: bool,
    bond: Bond,
) -> (StakingView, CandidateMetadata) {
    let bottom = s.bottom[candidate];
    let max = s.config.max_bottom_nominations_per_candidate;
    if bottom.nominations.len() as u32 == max {
        let s1 = kick_nomination(s, candidate, bottom.nominations.last());
        let new_bottom = nominations_with(nominations_without_lowest(bottom), bond);
        (
            StakingView { bottom: s1.bottom.insert(candidate, new_bottom), ..s1 },
            with_bottom_data(meta, new_bottom, max),
        )
    } else {
        let m1 = if bumped_from_top {
            meta
        } else {
            with_one_more_nomination(meta)
        };
        let new_bottom = nominations_with(bottom, bond);
        (
            StakingView { bottom: s.bottom.insert(candidate, new_bottom), ..s },
            with_bottom_data(m1, new_bottom, max),
        )
    }
}

/// `s`, the metadata of `candidate` and the amount that leaves the stake,
/// after `bond` was put among the top nominations of `candidate`. A full top
/// list first moves its lowest nomination to the bottom; when the bottom was
/// full too, the lowest bottom amount leaves the stake and the count of
/// nominations stays. A change of the counted total of an active candidate
/// is written to the pool.
pub open spec fn add_top_nomination(s: StakingView, candidate: u64, meta: CandidateMetadata, bond: Bond) -> (
    StakingView,
    CandidateMetadata,
    Option<u128>,
) {
    let top = s.top[candidate];
    let full = top.nominations.len() as u32 == s.config.max_top_nominations_per_candidate;
    let less = if full && meta.bottom_capacity == CapacityStatus::Full {
        Some(meta.lowest_bottom_nomination_amount)
    } else {
        None
    };
    let (s1, m1) = if full {
        add_bottom_nomination(s, candidate, meta, true, top.nominations.last())
    } else {
        (s, meta)
    };
    let top1 = if full {
        nominations_without_lowest(top)
    } else {
        top
    };
    let new_top = nominations_with(top1, bond);
    let m2 = with_top_data(m1, new_top, s.config.max_top_nominations_per_candidate);
    let pool = if m2.total_counted != m1.total_counted && m2.status == CollatorStatus::Active {
        s1.pool.insert(candidate, m2.total_counted)
    } else {
        s1.pool
    };
    let m3 = if less is None {
        with_one_more_nomination(m2)
    } else {
        m2
    };
    (StakingView { top: s1.top.insert(candidate, new_top), pool, ..s1 }, m3, less)
}

/// A full top list whose lowest amount `amount` does not beat, over a full
/// bottom list whose lowest amount `amount` does not beat either: no room.
pub open spec fn rejects_nomination(meta: CandidateMetadata, amount: u128) -> bool {
    &&& meta.top_capacity == CapacityStatus::Full
    &&& !(meta.lowest_top_nomination_amount < amount)
    &&& meta.bottom_capacity == CapacityStatus::Full
    &&& !(amount > meta.lowest_bottom_nomination_amount)
}

/// `s`, the metadata of `candidate`, where `bond` was placed and the amount
/// that leaves the stake, after `bond` was added to the nominations of
/// `candidate`: to the top while the top is not full or `bond` beats its
/// lowest amount, else to the bottom.
pub open spec fn candidate_add_nomination(s: StakingView, candidate: u64, meta: CandidateMetadata, bond: Bond) -> (
    StakingView,
    CandidateMetadata,
    NominatorAdded,
    Option<u128>,
) {
    if meta.top_capacity == CapacityStatus::Full {
        if meta.lowest_top_nomination_amount < bond.amount {
            let (s1, m1, less) = add_top_nomination(s, candidate, meta, bond);
            (s1, m1, NominatorAdded::AddedToTop { new_total: m1.total_counted }, less)
        } else {
            let less = if meta.bottom_capacity == CapacityStatus::Full {
                Some(meta.lowest_bottom_nomination_amount)
            } else {
                None
            };
            let (s1, m1) = add_bottom_nomination(s, candidate, meta, false, bond);
            (s1, m1, NominatorAdded::AddedToBottom, less)
        }
    } else {
        let (s1, m1, _less) = add_top_nomination(s, candidate, meta, bond);
        (s1, m1, NominatorAdded::AddedToTop { new_total: m1.total_counted }, None)
    }
}

/// The checks that a nomination of `candidate` passes once the nominator's
/// own checks passed, in order.
pub open spec fn candidate_nomination_error(
    s: StakingView,
    candidate: u64,
    amount: u128,
    candidate_nomination_count: u32,
) -> Option<Error> {
    if !s.candidates.contains_key(candidate) {
        Some(Error::CandidateDNE)
    } else if candidate_nomination_count < s.candidates[candidate].nomination_count {
        Some(Error::TooLowCandidateNominationCountToNominate)
    } else if rejects_nomination(s.candidates[candidate], amount) {
        Some(Error::CannotNominateLessThanOrEqualToLowestBottomWhenFull)
    } else {
        None
    }
}

/// The error with which a nomination of `amount` by `nominator` behind
/// `candidate` is refused, if it is: the first check that fails.
pub open spec fn nominate_error(
    s: StakingView,
    nominator: u64,
    candidate: u64,
    amount: u128,
    candidate_nomination_count: u32,
    nomination_count: u32,
) -> Option<Error> {
    if stakable_balance(s, nominator) < amount {
        Some(Error::InsufficientBalance)
    } else if s.nominators.contains_key(nominator) {
        let state = s.nominators[nominator];
        let held = state.nominations.len() as u32;
        if amount < s.config.min_nomination_per_collator {
            Some(Error::NominationBelowMin)
        } else if nomination_count < held {
            Some(Error::TooLowNominationCountToNominate)
        } else if !(held < s.config.max_nominations_per_nominator) {
            Some(Error::ExceedMaxNominationsPerNominator)
        } else if nominates(state, candidate) {
            Some(Error::AlreadyNominatedCandidate)
        } else {
            candidate_nomination_error(s, candidate, amount, candidate_nomination_count)
        }
    } else {
        if amount < s.min_total_nominator_stake {
            Some(Error::NominatorBondBelowMin)
        } else if s.candidates.contains_key(nominator) {
            Some(Error::CandidateExists)
        } else {
            candidate_nomination_error(s, candidate, amount, candidate_nomination_count)
        }
    }
}

/// The state of `nominator` once it nominates `amount` behind `candidate`.
pub open spec fn nominator_after(s: StakingView, nominator: u64, candidate: u64, amount: u128) -> NominatorView {
    if s.nominators.contains_key(nominator) {
        nominator_with(s.nominators[nominator], Bond { owner: candidate, amount }).0
    } else {
        new_nominator(nominator, candidate, amount)
    }
}

/// `s` after `nominator` nominated `amount` behind `candidate`: the
/// candidate took the nomination, the nominator's state holds it and its
/// lock covers it, the staked total grew by the amount less what a kicked
/// nomination took out, and a `Nomination` event closes the record.
pub open spec fn nominate_post(s: StakingView, nominator: u64, candidate: u64, amount: u128) -> StakingView {
    let state = nominator_after(s, nominator, candidate, amount);
    let (s1, meta, position, less) = candidate_add_nomination(
        s,
        candidate,
        s.candidates[candidate],
        Bond { owner: nominator, amount },
    );
    let net = match less {
        Some(l) => amount.saturating_sub(l),
        None => amount,
    };
    StakingView {
        locks: set_lock(s1.locks, nominator, locked_amount(state)),
        total: s1.total.saturating_add(net),
        candidates: s1.candidates.insert(candidate, meta),
        nominators: s1.nominators.insert(nominator, state),
        events: s1.events.push(
            Event::Nomination { nominator, locked_amount: amount, candidate, nominator_position: position },
        ),
        ..s1
    }
}

/// Every owner of a bond in `lists[c]` is a nominator that nominates `c`.
pub open spec fn lists_backed(s: StakingView, lists: Map<u64, NominationsView>) -> bool {
    forall|c: u64, x: u64|
        lists.contains_key(c) && #[trigger] has_owner(lists[c].nominations, x) ==> s.nominators.contains_key(x)
            && nominates(s.nominators[x], c)
}

/// Every list of `lists` holds one bond per owner, greatest to least.
pub open spec fn lists_shaped(lists: Map<u64, NominationsView>) -> bool {
    forall|c: u64|
        #[trigger] lists.contains_key(c) ==> distinct_owners(lists[c].nominations) && sorted_by_amount(
            lists[c].nominations,
        )
}

/// No nominator is both in the top and in the bottom of one candidate.
pub open spec fn lists_disjoint(s: StakingView) -> bool {
    forall|c: u64, x: u64|
        s.top.contains_key(c) && s.bottom.contains_key(c) && #[trigger] has_owner(s.top[c].nominations, x)
            ==> !has_owner(s.bottom[c].nominations, x)
}

/// Every nominator's nominations are ordered by candidate.
pub open spec fn nominators_ordered(s: StakingView) -> bool {
    forall|x: u64| #[trigger] s.nominators.contains_key(x) ==> sorted_by_owner(s.nominators[x].nominations)
}

/// Every nomination that a nominator holds is mirrored by a bond of that
/// nominator in the top or bottom list of the candidate.
pub open spec fn nominations_backed(s: StakingView) -> bool {
    forall|x: u64, c: u64|
        s.nominators.contains_key(x) && #[trigger] nominates(s.nominators[x], c) ==> s.top.contains_key(c)
            && s.bottom.contains_key(c) && (has_owner(s.top[c].nominations, x) || has_owner(
            s.bottom[c].nominations,
            x,
        ))
}

/// Only candidates have nomination lists.
pub open spec fn lists_belong_to_candidates(s: StakingView) -> bool {
    &&& forall|c: u64| #[trigger] s.top.contains_key(c) ==> s.candidates.contains_key(c)
    &&& forall|c: u64| #[trigger] s.bottom.contains_key(c) ==> s.candidates.contains_key(c)
}

/// Every bond in `lists[c]` is mirrored, with its amount, by a nomination of
/// `c` in its owner's state.
pub open spec fn bonds_mirrored(s: StakingView, lists: Map<u64, NominationsView>) -> bool {
    forall|c: u64, y: Bond|
        lists.contains_key(c) && #[trigger] lists[c].nominations.contains(y) ==> s.nominators.contains_key(y.owner)
            && s.nominators[y.owner].nominations.contains(Bond { owner: c, amount: y.amount })
}

/// Every nominator's total is the sum of its nominations.
pub open spec fn nominators_total(s: StakingView) -> bool {
    forall|x: u64|
        #[trigger] s.nominators.contains_key(x) ==> s.nominators[x].total == sum_amounts(s.nominators[x].nominations)
}

/// The amount that the nominator lock holds on `who` (0 when there is no lock).
pub open spec fn lock_of(s: StakingView, who: u64) -> u128 {
    if s.locks.contains_key(who) {
        s.locks[who]
    } else {
        0
    }
}

/// The nominator lock of every nominator holds what its state says it has
/// not scheduled to unstake, and no other account is locked.
pub open spec fn locks_match(s: StakingView) -> bool {
    &&& forall|x: u64| #[trigger] s.nominators.contains_key(x) ==> lock_of(s, x) == locked_amount(s.nominators[x])
    &&& forall|x: u64| #[trigger] s.locks.contains_key(x) ==> s.nominators.contains_key(x)
}

/// Every candidate has a top and a bottom list.
pub open spec fn candidates_have_lists(s: StakingView) -> bool {
    forall|c: u64| #[trigger] s.candidates.contains_key(c) ==> s.top.contains_key(c) && s.bottom.contains_key(c)
}

/// The number of nominations that a list pair of `len` nominations counts:
/// `len`, capped at the largest `u32`.
pub open spec fn capped_count(len: nat) -> u32 {
    if len > u32::MAX {
        u32::MAX
    } else {
        len as u32
    }
}

/// Every top nomination is at least every bottom nomination, and the bottom
/// list holds nominations only while the top list is full.
pub open spec fn lists_ranked(top: Seq<Bond>, bottom: Seq<Bond>, max_top: u32) -> bool {
    &&& forall|x: Bond, y: Bond| #[trigger] top.contains(x) && #[trigger] bottom.contains(y) ==> x.amount >= y.amount
    &&& bottom.len() > 0 ==> top.len() == max_top
}

/// The metadata `m` summarises the lists `top` and `bottom`, which are
/// ranked: each list is within its bound, the lowest and highest amounts and
/// the capacities are those of the lists, the counted total is the bond plus
/// the top total, the count of nominations is the number of bonds in both
/// lists, and the lists are [`lists_ranked`].
pub open spec fn candidate_summarised(
    m: CandidateMetadata,
    top: NominationsView,
    bottom: NominationsView,
    config: StakingConfig,
) -> bool {
    &&& top.nominations.len() <= config.max_top_nominations_per_candidate
    &&& bottom.nominations.len() <= config.max_bottom_nominations_per_candidate
    &&& m.lowest_top_nomination_amount == lowest_amount(top.nominations)
    &&& m.top_capacity == capacity(top.nominations.len(), config.max_top_nominations_per_candidate)
    &&& m.total_counted == m.bond.saturating_add(top.total)
    &&& m.lowest_bottom_nomination_amount == lowest_amount(bottom.nominations)
    &&& m.highest_bottom_nomination_amount == highest_amount(bottom.nominations)
    &&& m.bottom_capacity == capacity(bottom.nominations.len(), config.max_bottom_nominations_per_candidate)
    &&& m.nomination_count == capped_count(top.nominations.len() + bottom.nominations.len())
    &&& lists_ranked(top.nominations, bottom.nominations, config.max_top_nominations_per_candidate)
}

/// Every candidate's metadata summarises its lists.
pub open spec fn candidates_summarised(s: StakingView) -> bool {
    forall|c: u64|
        #[trigger] s.candidates.contains_key(c) ==> candidate_summarised(s.candidates[c], s.top[c], s.bottom[c], s.config)
}

/// The invariant of the pallet's storage: a valid configuration; every
/// candidate has its two lists; each list holds one bond per owner, greatest
/// to least; no nominator is in both lists of a candidate; every bond in a
/// list belongs to a nominator whose state holds the matching nomination;
/// every nomination that a nominator holds is mirrored in the lists of its
/// candidate, and every bond in a list by a nomination of the same amount; only candidates have lists; every nominator's nominations are
/// ordered by candidate and sum up to its total; the nominator locks match the
/// nominators; and every candidate's metadata summarises its lists.
pub open spec fn staking_wf(s: StakingView) -> bool {
    &&& valid_config(s.config)
    &&& candidates_have_lists(s)
    &&& lists_belong_to_candidates(s)
    &&& nominations_backed(s)
    &&& candidates_summarised(s)
    &&& lists_shaped(s.top)
    &&& lists_shaped(s.bottom)
    &&& lists_disjoint(s)
    &&& lists_backed(s, s.top)
    &&& lists_backed(s, s.bottom)
    &&& nominators_ordered(s)
    &&& nominators_total(s)
    &&& locks_match(s)
    &&& bonds_mirrored(s, s.top)
    &&& bonds_mirrored(s, s.bottom)
}


/// The scores awarded in `era`.
pub open spec fn points_of(s: StakingView, era: u32) -> Seq<CollatorScore> {
    if s.awarded.contains_key(era) {
        s.awarded[era]
    } else {
        Seq::empty()
    }
}

/// The total staked when `era` started (0 when not recorded).
pub open spec fn staked_at(s: StakingView, era: u32) -> u128 {
    if s.staked.contains_key(era) {
        s.staked[era]
    } else {
        0
    }
}

/// The growth record of period `index`; a period never written reads as an
/// empty record counting one era.
pub open spec fn growth_of(s: StakingView, index: u32) -> GrowthInfoView {
    if s.growth.contains_key(index) {
        s.growth[index]
    } else {
        new_growth(1)
    }
}

/// `s` after `collator` was awarded `points` in `era`.
pub open spec fn award_points_post(s: StakingView, era: u32, collator: u64, points: u32) -> StakingView {
    StakingView {
        awarded: s.awarded.insert(era, add_score(points_of(s, era), CollatorScore { collator, value: points })),
        ..s
    }
}

/// `s` after the payout of `payout_era` was recorded in the growth records:
/// it opens the next growth period, starting with `payout_era`, or adds to
/// the current one the stake of `payout_era`, the reward pot, and the
/// points scored in `payout_era`.
pub open spec fn record_growth(s: StakingView, payout_era: u32) -> StakingView {
    let scores = points_of(s, payout_era);
    let stake = staked_at(s, payout_era);
    let points = total_score(scores);
    let reward = s.reward_pot;
    let info = s.growth_period;
    if opens_growth_period(info, payout_era, s.config.eras_per_growth_period) {
        let index = info.index.saturating_add(1);
        StakingView {
            growth_period: GrowthPeriodInfo { start_era_index: payout_era, index },
            growth: s.growth.insert(index, first_growth(stake, reward, points, scores)),
            ..s
        }
    } else {
        StakingView {
            growth: s.growth.insert(
                info.index,
                accumulate_growth(growth_of(s, info.index), stake, reward, points, scores),
            ),
            ..s
        }
    }
}

/// `s` after the era that starts at block `now` began: the era advances,
/// the stake at its start is recorded, the era that is now
/// `reward_payment_delay` eras old is paid out into the growth records, and
/// a `NewEra` event is reported.
pub open spec fn start_era(s: StakingView, now: u64) -> StakingView {
    let era = next_era(s.era, now);
    let s1 = StakingView { era, staked: s.staked.insert(era.current, s.total), ..s };
    let s2 = if era.current > s.config.reward_payment_delay {
        record_growth(s1, (era.current - s.config.reward_payment_delay) as u32)
    } else {
        s1
    };
    StakingView {
        events: s2.events.push(
            Event::NewEra {
                starting_block: now,
                era: era.current,
                selected_collators_number: s.pool.len() as u32,
                total_balance: s.total,
            },
        ),
        ..s2
    }
}

/// `s` at the start of block `now`: a new era begins when the current one
/// has lasted its length.
pub open spec fn on_initialize_post(s: StakingView, now: u64) -> StakingView {
    let s0 = StakingView { block_number: now, ..s };
    if era_should_update(s.era, now) {
        start_era(s0, now)
    } else {
        s0
    }
}


/// The error with which `who` is refused as a candidate with `bond`, if it is.
pub open spec fn join_candidates_error(s: StakingView, who: u64, bond: u128) -> Option<Error> {
    if s.candidates.contains_key(who) {
        Some(Error::CandidateExists)
    } else if s.nominators.contains_key(who) {
        Some(Error::NominatorExists)
    } else if bond < s.min_collator_stake {
        Some(Error::CandidateBondBelowMin)
    } else if free_balance_of(s, who) < bond {
        Some(Error::InsufficientBalance)
    } else {
        None
    }
}

/// `s` after `who` joined the candidates with `bond`: it has fresh metadata
/// and empty lists, it is in the pool with its bond, and the bond is added
/// to the staked total.
pub open spec fn join_candidates_post(s: StakingView, who: u64, bond: u128) -> StakingView {
    let new_total = s.total.saturating_add(bond);
    StakingView {
        candidates: s.candidates.insert(who, new_candidate(bond)),
        top: s.top.insert(who, empty_nominations()),
        bottom: s.bottom.insert(who, empty_nominations()),
        pool: s.pool.insert(who, bond),
        total: new_total,
        events: s.events.push(
            Event::JoinedCollatorCandidates { account: who, amount_locked: bond, new_total_amt_locked: new_total },
        ),
        ..s
    }
}

/// Whether `value` is a setting that may be applied: a delay of at least one
/// era, any candidate minimum, and a nominator minimum no lower than the
/// least nomination per collator.
pub open spec fn admin_setting_valid(s: StakingView, value: AdminSettings) -> bool {
    match value {
        AdminSettings::Delay(d) => d > 0,
        AdminSettings::MinCollatorStake(_) => true,
        AdminSettings::MinNominatorStake(v) => v >= s.config.min_nomination_per_collator,
    }
}

/// The error with which a change of setting is refused, if it is: only the
/// root origin may change a setting, and only to a valid value.
pub open spec fn admin_setting_error(s: StakingView, origin: Origin, value: AdminSettings) -> Option<Error> {
    if origin != Origin::Root {
        Some(Error::BadOrigin)
    } else if !admin_setting_valid(s, value) {
        Some(Error::AdminSettingsValueIsNotValid)
    } else {
        None
    }
}

/// `s` after the setting `value` was applied and reported.
pub open spec fn admin_setting_post(s: StakingView, value: AdminSettings) -> StakingView {
    let s1 = match value {
        AdminSettings::Delay(d) => StakingView { delay: d, ..s },
        AdminSettings::MinCollatorStake(v) => StakingView { min_collator_stake: v, ..s },
        AdminSettings::MinNominatorStake(v) => StakingView { min_total_nominator_stake: v, ..s },
    };
    StakingView { events: s1.events.push(Event::AdminSettingsUpdated { value }), ..s1 }
}

} // verus!
