//! The pallet's storage and the calls that read and change it.
use vstd::prelude::*;
use vstd::hash_map::HashMapWithView;
use crate::bond::Bond;
use crate::nominator::{Nominator, NominatorView};
use crate::candidate::{CandidateMetadata, CapacityStatus, Nominations, NominationsView};
use crate::growth::{
    CollatorScore, EraInfo, GrowthPeriodInfo, GrowthInfo, GrowthInfoView, add_score_to, merge_scores_into,
    sum_scores, copy_scores,
};
use crate::types::{StakingConfig, Event, Error, NominatorAdded, AdminSettings, Origin, valid_config};
use crate::preservation::{
    lemma_nominate_preserves_wf, lemma_nominator_outside_lists, lemma_wf_kickable,
    lemma_candidate_add, nominator_changed, lemma_wf_frame, lemma_join_candidates_preserves_wf,
};
use crate::model::{
    StakingView, staking_wf, free_balance_of, stakable_balance, set_lock, kick_nomination,
    add_bottom_nomination, add_top_nomination, candidate_add_nomination, nominate_error, nominate_post,
    nominator_after, award_points_post, record_growth, start_era,
    on_initialize_post, growth_of, join_candidates_error, join_candidates_post, admin_setting_error,
    admin_setting_post,
};

verus! {

use crate::accounting::{total_accounted, nomination_net_stake, nomination_kicks, lemma_nominate_accounted, lemma_join_accounted};
use crate::laws::{law_staked_total_grows, law_genesis_accounted};

broadcast use vstd::std_specs::hash::group_hash_axioms;

/// The storage of the staking pallet.
pub struct Pallet {
    config: StakingConfig,
    free_balance: HashMapWithView<u64, u128>,
    locks: HashMapWithView<u64, u128>,
    nominator_state: HashMapWithView<u64, Nominator>,
    candidate_info: HashMapWithView<u64, CandidateMetadata>,
    top_nominations: HashMapWithView<u64, Nominations>,
    bottom_nominations: HashMapWithView<u64, Nominations>,
    candidate_pool: HashMapWithView<u64, u128>,
    total: u128,
    min_total_nominator_stake: u128,
    min_collator_stake: u128,
    delay: u32,
    events: Vec<Event>,
    block_number: u64,
    era: EraInfo,
    staked: HashMapWithView<u32, u128>,
    awarded_pts: HashMapWithView<u32, Vec<CollatorScore>>,
    reward_pot: u128,
    growth_period: GrowthPeriodInfo,
    growth: HashMapWithView<u32, GrowthInfo>,
}

/// The value of a nominator state.
pub open spec fn nominator_view(n: Nominator) -> NominatorView {
    n@
}

/// The value of a nomination list.
pub open spec fn nominations_view(n: Nominations) -> NominationsView {
    n@
}

/// The value of a list of scores.
pub open spec fn scores_view(v: Vec<CollatorScore>) -> Seq<CollatorScore> {
    v@
}

/// The value of a growth record.
pub open spec fn growth_view(g: GrowthInfo) -> GrowthInfoView {
    g@
}

impl View for Pallet {
    type V = StakingView;

    closed spec fn view(&self) -> StakingView {
        StakingView {
            config: self.config,
            free_balance: self.free_balance@,
            locks: self.locks@,
            nominators: self.nominator_state@.map_values(|n: Nominator| nominator_view(n)),
            candidates: self.candidate_info@,
            top: self.top_nominations@.map_values(|n: Nominations| nominations_view(n)),
            bottom: self.bottom_nominations@.map_values(|n: Nominations| nominations_view(n)),
            pool: self.candidate_pool@,
            total: self.total,
            min_total_nominator_stake: self.min_total_nominator_stake,
            min_collator_stake: self.min_collator_stake,
            delay: self.delay,
            events: self.events@,
            block_number: self.block_number,
            era: self.era,
            staked: self.staked@,
            awarded: self.awarded_pts@.map_values(|v: Vec<CollatorScore>| scores_view(v)),
            reward_pot: self.reward_pot,
            growth_period: self.growth_period,
            growth: self.growth@.map_values(|g: GrowthInfo| growth_view(g)),
        }
    }
}

/// The storage of a pallet that has just been set up with `config` and the
/// given settings: no balances, no candidates, no nominators.
pub open spec fn genesis(
    config: StakingConfig,
    min_collator_stake: u128,
    min_total_nominator_stake: u128,
    delay: u32,
) -> StakingView {
    StakingView {
        config,
        free_balance: Map::empty(),
        locks: Map::empty(),
        nominators: Map::empty(),
        candidates: Map::empty(),
        top: Map::empty(),
        bottom: Map::empty(),
        pool: Map::empty(),
        total: 0,
        min_total_nominator_stake,
        min_collator_stake,
        delay,
        events: Seq::empty(),
        block_number: 0,
        era: EraInfo { current: 1, first: 0, length: config.blocks_per_era },
        staked: Map::empty(),
        awarded: Map::empty(),
        reward_pot: 0,
        growth_period: GrowthPeriodInfo { start_era_index: 0, index: 0 },
        growth: Map::empty(),
    }
}

proof fn lemma_map_values_insert<K, V, W>(m: Map<K, V>, k: K, v: V, f: spec_fn(V) -> W)
    ensures
        m.insert(k, v).map_values(f) == m.map_values(f).insert(k, f(v)),
{
    assert(m.insert(k, v).map_values(f) =~= m.map_values(f).insert(k, f(v)));
}

proof fn lemma_map_values_remove<K, V, W>(m: Map<K, V>, k: K, f: spec_fn(V) -> W)
    ensures
        m.remove(k).map_values(f) == m.map_values(f).remove(k),
{
    assert(m.remove(k).map_values(f) =~= m.map_values(f).remove(k));
}

impl Pallet {
    /// The storage of a pallet set up with `config` and the given settings.
    pub fn new(config: StakingConfig, min_collator_stake: u128, min_total_nominator_stake: u128, delay: u32) -> (r:
        Pallet)
        requires
            valid_config(config),
        ensures
            r@ == genesis(config, min_collator_stake, min_total_nominator_stake, delay),
            staking_wf(r@),
            total_accounted(r@),
    {
        let r = Pallet {
            config,
            free_balance: HashMapWithView::new(),
            locks: HashMapWithView::new(),
            nominator_state: HashMapWithView::new(),
            candidate_info: HashMapWithView::new(),
            top_nominations: HashMapWithView::new(),
            bottom_nominations: HashMapWithView::new(),
            candidate_pool: HashMapWithView::new(),
            total: 0,
            min_total_nominator_stake,
            min_collator_stake,
            delay,
            events: Vec::new(),
            block_number: 0,
            era: EraInfo { current: 1, first: 0, length: config.blocks_per_era },
            staked: HashMapWithView::new(),
            awarded_pts: HashMapWithView::new(),
            reward_pot: 0,
            growth_period: GrowthPeriodInfo { start_era_index: 0, index: 0 },
            growth: HashMapWithView::new(),
        };
        assert(r@.awarded =~= Map::empty());
        assert(r@.growth =~= Map::empty());
        assert(r@.nominators =~= Map::empty());
        assert(r@.top =~= Map::empty());
        assert(r@.bottom =~= Map::empty());
        proof {
            law_genesis_accounted(config, min_collator_stake, min_total_nominator_stake, delay);
        }
        r
    }

    /// The configuration.
    pub fn config(&self) -> (r: StakingConfig)
        ensures
            r == self@.config,
    {
        self.config
    }

    /// The free balance of `who`.
    pub fn free_balance(&self, who: u64) -> (r: u128)
        ensures
            r == free_balance_of(self@, who),
    {
        match self.free_balance.get(&who) {
            Some(b) => *b,
            None => 0,
        }
    }

    /// Sets the free balance of `who` (as a balances pallet would).
    pub fn set_free_balance(&mut self, who: u64, amount: u128)
        requires
            staking_wf(old(self)@),
        ensures
            final(self)@ == (StakingView { free_balance: old(self)@.free_balance.insert(who, amount), ..old(self)@ }),
            staking_wf(final(self)@),
    {
        self.free_balance.insert(who, amount);
    }

    /// The amount that the staking lock holds on `who`.
    pub fn locked_balance(&self, who: u64) -> (r: u128)
        ensures
            r == (if self@.locks.contains_key(who) { self@.locks[who] } else { 0 }),
    {
        match self.locks.get(&who) {
            Some(b) => *b,
            None => 0,
        }
    }

    /// The part of the free balance of `who` that it has not nominated: its
    /// free balance less its nominator total, if it is a nominator.
    pub fn get_nominator_stakable_free_balance(&self, who: u64) -> (r: u128)
        ensures
            r == stakable_balance(self@, who),
    {
        let free = self.free_balance(who);
        match self.nominator_state.get(&who) {
            Some(state) => free.saturating_sub(state.total),
            None => free,
        }
    }

    /// Whether `who` is a candidate.
    pub fn is_candidate(&self, who: u64) -> (r: bool)
        ensures
            r == self@.candidates.contains_key(who),
    {
        self.candidate_info.contains_key(&who)
    }

    /// Whether `who` is a nominator.
    pub fn is_nominator(&self, who: u64) -> (r: bool)
        ensures
            r == self@.nominators.contains_key(who),
    {
        self.nominator_state.contains_key(&who)
    }

    /// A copy of the state of nominator `who`, if it is one.
    pub fn nominator_state(&self, who: u64) -> (r: Option<Nominator>)
        ensures
            match r {
                Some(n) => self@.nominators.contains_key(who) && n@ == self@.nominators[who],
                None => !self@.nominators.contains_key(who),
            },
    {
        match self.nominator_state.get(&who) {
            Some(n) => Some(n.copy_state()),
            None => None,
        }
    }

    /// The metadata of candidate `who`, if it is one.
    pub fn candidate_info(&self, who: u64) -> (r: Option<CandidateMetadata>)
        ensures
            match r {
                Some(m) => self@.candidates.contains_key(who) && m == self@.candidates[who],
                None => !self@.candidates.contains_key(who),
            },
    {
        match self.candidate_info.get(&who) {
            Some(m) => Some(*m),
            None => None,
        }
    }

    /// A copy of the top nominations of `who`, if it has a top list.
    pub fn top_nominations(&self, who: u64) -> (r: Option<Nominations>)
        ensures
            match r {
                Some(n) => self@.top.contains_key(who) && n@ == self@.top[who],
                None => !self@.top.contains_key(who),
            },
    {
        match self.top_nominations.get(&who) {
            Some(n) => Some(n.copy()),
            None => None,
        }
    }

    /// A copy of the bottom nominations of `who`, if it has a bottom list.
    pub fn bottom_nominations(&self, who: u64) -> (r: Option<Nominations>)
        ensures
            match r {
                Some(n) => self@.bottom.contains_key(who) && n@ == self@.bottom[who],
                None => !self@.bottom.contains_key(who),
            },
    {
        match self.bottom_nominations.get(&who) {
            Some(n) => Some(n.copy()),
            None => None,
        }
    }

    /// The amount counted for `who` in the candidate pool, if it is there.
    pub fn candidate_pool_amount(&self, who: u64) -> (r: Option<u128>)
        ensures
            match r {
                Some(a) => self@.pool.contains_key(who) && a == self@.pool[who],
                None => !self@.pool.contains_key(who),
            },
    {
        match self.candidate_pool.get(&who) {
            Some(a) => Some(*a),
            None => None,
        }
    }

    /// The total amount locked for staking.
    pub fn total(&self) -> (r: u128)
        ensures
            r == self@.total,
    {
        self.total
    }

    /// The least amount of a nominator's first nomination.
    pub fn min_total_nominator_stake(&self) -> (r: u128)
        ensures
            r == self@.min_total_nominator_stake,
    {
        self.min_total_nominator_stake
    }

    /// The least bond with which a candidate may join.
    pub fn min_collator_stake(&self) -> (r: u128)
        ensures
            r == self@.min_collator_stake,
    {
        self.min_collator_stake
    }

    /// The number of eras that a scheduled request waits.
    pub fn delay(&self) -> (r: u32)
        ensures
            r == self@.delay,
    {
        self.delay
    }

    /// The events reported so far, oldest first.
    pub fn events(&self) -> (r: &Vec<Event>)
        ensures
            r@ == self@.events,
    {
        &self.events
    }

    /// Sets the lock of `who` to `amount`, removing it when `amount` is 0.
    fn set_lock(&mut self, who: u64, amount: u128)
        ensures
            final(self)@ == (StakingView { locks: set_lock(old(self)@.locks, who, amount), ..old(self)@ }),
    {
        if amount == 0 {
            self.locks.remove(&who);
            assert(self.locks@ =~= old(self).locks@.remove(who));
        } else {
            self.locks.insert(who, amount);
        }
    }
}


impl Pallet {
    /// Kicks the bottom nomination `kicked` of `candidate`: its owner loses
    /// the nomination, its lock follows its remaining total, and an owner
    /// left with no nomination is no longer a nominator.
    fn kick_nomination(&mut self, candidate: u64, kicked: Bond)
        requires
            old(self)@.nominators.contains_key(kicked.owner),
        ensures
            final(self)@ == kick_nomination(old(self)@, candidate, kicked),
    {
        let ghost f = |n: Nominator| nominator_view(n);
        let mut state = match self.nominator_state.get(&kicked.owner) {
            Some(st) => st.copy_state(),
            None => {
                return;
            },
        };
        let leaving = state.nominations.0.len() == 1;
        state.rm_nomination(candidate);
        let lock = state.total.saturating_sub(state.less_total);
        self.set_lock(kicked.owner, lock);
        self.events.push(
            Event::NominationKicked {
                nominator: kicked.owner,
                candidate,
                unstaked_amount: kicked.amount,
            },
        );
        if leaving {
            let ghost raw = self.nominator_state@;
            self.nominator_state.remove(&kicked.owner);
            proof {
                lemma_map_values_remove(raw, kicked.owner, f);
            }
            self.events.push(
                Event::NominatorLeft { nominator: kicked.owner, unstaked_amount: kicked.amount },
            );
        } else {
            let ghost raw = self.nominator_state@;
            let ghost sv = state;
            self.nominator_state.insert(kicked.owner, state);
            proof {
                lemma_map_values_insert(raw, kicked.owner, sv, f);
            }
        }
    }
}


/// The lowest bottom nomination of `candidate`, when its bottom list is full,
/// belongs to a nominator: what kicking it needs.
pub open spec fn kickable(s: StakingView, candidate: u64) -> bool {
    s.bottom[candidate].nominations.len() as u32 == s.config.max_bottom_nominations_per_candidate
        ==> s.nominators.contains_key(s.bottom[candidate].nominations.last().owner)
}

impl Pallet {
    /// Puts `bond` among the bottom nominations of `candidate`, kicking the
    /// lowest of them first when the list is full; returns the metadata with
    /// its bottom summary (and count) updated.
    fn add_bottom_nomination(&mut self, candidate: u64, meta: CandidateMetadata, bumped_from_top: bool, bond: Bond) -> (r:
        CandidateMetadata)
        requires
            old(self)@.bottom.contains_key(candidate),
            valid_config(old(self)@.config),
            kickable(old(self)@, candidate),
        ensures
            (final(self)@, r) == add_bottom_nomination(old(self)@, candidate, meta, bumped_from_top, bond),
    {
        let ghost f = |n: Nominations| nominations_view(n);
        let mut bottom = match self.bottom_nominations.get(&candidate) {
            Some(b) => b.copy(),
            None => {
                return meta;
            },
        };
        let mut meta = meta;
        let max = self.config.max_bottom_nominations_per_candidate;
        #[verifier::truncate]
        let len = bottom.nominations.len() as u32;
        if len == max {
            let kicked = bottom.pop_lowest();
            self.kick_nomination(candidate, kicked);
        } else if !bumped_from_top {
            meta.increment_nomination_count();
        }
        bottom.insert_sorted_greatest_to_least(bond);
        meta.reset_bottom_data(&bottom, max);
        let ghost raw = self.bottom_nominations@;
        let ghost bv = bottom;
        self.bottom_nominations.insert(candidate, bottom);
        proof {
            lemma_map_values_insert(raw, candidate, bv, f);
        }
        meta
    }

    /// Puts `bond` among the top nominations of `candidate`, moving the
    /// lowest of them to the bottom first when the list is full; returns the
    /// updated metadata and, when that move kicked a bottom nomination, the
    /// amount that leaves the stake.
    fn add_top_nomination(&mut self, candidate: u64, meta: CandidateMetadata, bond: Bond) -> (r: (
        CandidateMetadata,
        Option<u128>,
    ))
        requires
            old(self)@.top.contains_key(candidate),
            old(self)@.bottom.contains_key(candidate),
            valid_config(old(self)@.config),
            kickable(old(self)@, candidate),
        ensures
            ({
                let (s1, m, less) = add_top_nomination(old(self)@, candidate, meta, bond);
                final(self)@ == s1 && r == (m, less)
            }),
    {
        let ghost f = |n: Nominations| nominations_view(n);
        let mut top = match self.top_nominations.get(&candidate) {
            Some(t) => t.copy(),
            None => {
                return (meta, None);
            },
        };
        let max_top = self.config.max_top_nominations_per_candidate;
        let mut meta = meta;
        let mut less: Option<u128> = None;
        #[verifier::truncate]
        let len = top.nominations.len() as u32;
        if len == max_top {
            let moved = top.pop_lowest();
            if meta.bottom_capacity == CapacityStatus::Full {
                less = Some(meta.lowest_bottom_nomination_amount);
            }
            meta = self.add_bottom_nomination(candidate, meta, true, moved);
        }
        top.insert_sorted_greatest_to_least(bond);
        let old_total_counted = meta.total_counted;
        meta.reset_top_data(&top, max_top);
        if old_total_counted != meta.total_counted && meta.is_active() {
            self.candidate_pool.insert(candidate, meta.total_counted);
        }
        if less.is_none() {
            meta.increment_nomination_count();
        }
        let ghost raw = self.top_nominations@;
        let ghost tv = top;
        self.top_nominations.insert(candidate, top);
        proof {
            lemma_map_values_insert(raw, candidate, tv, f);
        }
        (meta, less)
    }

    /// Adds `bond` to the nominations of `candidate`: to the top while the
    /// top is not full or `bond` beats its lowest amount, else to the bottom.
    /// Returns the updated metadata, where the nomination went, and the
    /// amount that leaves the stake when a bottom nomination was kicked.
    fn candidate_add_nomination(&mut self, candidate: u64, meta: CandidateMetadata, bond: Bond) -> (r: (
        CandidateMetadata,
        NominatorAdded,
        Option<u128>,
    ))
        requires
            old(self)@.top.contains_key(candidate),
            old(self)@.bottom.contains_key(candidate),
            valid_config(old(self)@.config),
            kickable(old(self)@, candidate),
        ensures
            ({
                let (s1, m, position, less) = candidate_add_nomination(old(self)@, candidate, meta, bond);
                final(self)@ == s1 && r == (m, position, less)
            }),
    {
        if meta.top_capacity == CapacityStatus::Full {
            if meta.lowest_top_nomination_amount < bond.amount {
                let (m, less) = self.add_top_nomination(candidate, meta, bond);
                (m, NominatorAdded::AddedToTop { new_total: m.total_counted }, less)
            } else {
                let less = if meta.bottom_capacity == CapacityStatus::Full {
                    Some(meta.lowest_bottom_nomination_amount)
                } else {
                    None
                };
                let m = self.add_bottom_nomination(candidate, meta, false, bond);
                (m, NominatorAdded::AddedToBottom, less)
            }
        } else {
            let (m, _less) = self.add_top_nomination(candidate, meta, bond);
            (m, NominatorAdded::AddedToTop { new_total: m.total_counted }, None)
        }
    }
}


impl Pallet {
    /// Nominates `amount` of `nominator`'s free balance behind `candidate`.
    ///
    /// The nominator must be able to stake `amount`. A nominator that already
    /// nominates must nominate at least the per-collator minimum, pass a
    /// `nomination_count` no lower than its number of nominations, stay below
    /// the most nominations per nominator, and not nominate `candidate`
    /// already; a first nomination must reach the minimum nominator stake and
    /// come from an account that is not a candidate. The candidate must exist,
    /// `candidate_nomination_count` must be no lower than its count of
    /// nominations, and there must be room for `amount` in its lists.
    /// Then the candidate takes the nomination (possibly kicking its lowest
    /// bottom nomination, which is always below `amount`), the nominator's
    /// state holds it and its lock covers its total, the staked total grows
    /// by the nomination's net stake, and a `Nomination` event is reported.
    /// A refused call changes nothing. The staked total stays what the
    /// candidates bonded plus what the nominators nominated, unless the
    /// addition overflows.
    pub fn call_nominate(
        &mut self,
        nominator: u64,
        candidate: u64,
        amount: u128,
        candidate_nomination_count: u32,
        nomination_count: u32,
    ) -> (r: Result<(), Error>)
        requires
            staking_wf(old(self)@),
        ensures
            staking_wf(final(self)@),
            match r {
                Ok(()) => nominate_error(
                    old(self)@,
                    nominator,
                    candidate,
                    amount,
                    candidate_nomination_count,
                    nomination_count,
                ) is None && final(self)@ == nominate_post(old(self)@, nominator, candidate, amount),
                Err(e) => nominate_error(
                    old(self)@,
                    nominator,
                    candidate,
                    amount,
                    candidate_nomination_count,
                    nomination_count,
                ) == Some(e) && final(self)@ == old(self)@,
            },
            r is Ok ==> (nomination_kicks(old(self)@, candidate)
                ==> old(self)@.candidates[candidate].lowest_bottom_nomination_amount < amount) && final(self)@.total
                == old(self)@.total.saturating_add(nomination_net_stake(old(self)@, candidate, amount) as u128),
            total_accounted(old(self)@) && old(self)@.total + nomination_net_stake(old(self)@, candidate, amount)
                <= u128::MAX ==> total_accounted(final(self)@),
    {
        let ghost s0 = self@;
        let ghost fnom = |n: Nominator| nominator_view(n);
        if self.get_nominator_stakable_free_balance(nominator) < amount {
            return Err(Error::InsufficientBalance);
        }
        let nominator_state = match self.nominator_state.get(&nominator) {
            Some(state) => {
                if amount < self.config.min_nomination_per_collator {
                    return Err(Error::NominationBelowMin);
                }
                #[verifier::truncate]
                let held = state.nominations.0.len() as u32;
                if nomination_count < held {
                    return Err(Error::TooLowNominationCountToNominate);
                }
                if !(held < self.config.max_nominations_per_nominator) {
                    return Err(Error::ExceedMaxNominationsPerNominator);
                }
                let mut st = state.copy_state();
                if !st.add_nomination(Bond { owner: candidate, amount }) {
                    return Err(Error::AlreadyNominatedCandidate);
                }
                st
            },
            None => {
                if amount < self.min_total_nominator_stake {
                    return Err(Error::NominatorBondBelowMin);
                }
                if self.is_candidate(nominator) {
                    return Err(Error::CandidateExists);
                }
                Nominator::new(nominator, candidate, amount)
            },
        };
        let meta = match self.candidate_info.get(&candidate) {
            Some(m) => *m,
            None => {
                return Err(Error::CandidateDNE);
            },
        };
        if candidate_nomination_count < meta.nomination_count {
            return Err(Error::TooLowCandidateNominationCountToNominate);
        }
        if meta.top_capacity == CapacityStatus::Full && !(meta.lowest_top_nomination_amount < amount)
            && meta.bottom_capacity == CapacityStatus::Full && !(amount
            > meta.lowest_bottom_nomination_amount) {
            return Err(Error::CannotNominateLessThanOrEqualToLowestBottomWhenFull);
        }
        proof {
            assert(nominate_error(s0, nominator, candidate, amount, candidate_nomination_count, nomination_count) is None);
            assert(nominator_state@ == nominator_after(s0, nominator, candidate, amount));
            lemma_nominator_outside_lists(s0, nominator, candidate, amount, candidate_nomination_count, nomination_count);
            lemma_wf_kickable(s0, candidate);
            lemma_candidate_add(s0, candidate, meta, Bond { owner: nominator, amount });
            lemma_nominate_preserves_wf(s0, nominator, candidate, amount, candidate_nomination_count, nomination_count);
            law_staked_total_grows(s0, nominator, candidate, amount, candidate_nomination_count, nomination_count);
            if total_accounted(s0) && s0.total + nomination_net_stake(s0, candidate, amount) <= u128::MAX {
                lemma_nominate_accounted(s0, nominator, candidate, amount, candidate_nomination_count, nomination_count);
            }
        }
        let (meta, position, less) = self.candidate_add_nomination(
            candidate,
            meta,
            Bond { owner: nominator, amount },
        );
        proof {
            assert(!nominator_changed(s0, self@, nominator));
        }
        // The nominator's state is untouched by the candidate's update, so
        // the balance check that guards its new lock passes as it did above.
        if self.get_nominator_stakable_free_balance(nominator) < amount {
            return Err(Error::InsufficientBalance);
        }
        let lock = nominator_state.total.saturating_sub(nominator_state.less_total);
        self.set_lock(nominator, lock);
        let net = match less {
            Some(l) => amount.saturating_sub(l),
            None => amount,
        };
        self.total = self.total.saturating_add(net);
        self.candidate_info.insert(candidate, meta);
        let ghost raw = self.nominator_state@;
        let ghost nv = nominator_state;
        self.nominator_state.insert(nominator, nominator_state);
        proof {
            lemma_map_values_insert(raw, nominator, nv, fnom);
        }
        self.events.push(
            Event::Nomination {
                nominator,
                locked_amount: amount,
                candidate,
                nominator_position: position,
            },
        );
        Ok(())
    }
}


impl Pallet {
    /// The number of the current block.
    pub fn block_number(&self) -> (r: u64)
        ensures
            r == self@.block_number,
    {
        self.block_number
    }

    /// The current era.
    pub fn era(&self) -> (r: EraInfo)
        ensures
            r == self@.era,
    {
        self.era
    }

    /// The growth period being filled.
    pub fn growth_period_info(&self) -> (r: GrowthPeriodInfo)
        ensures
            r == self@.growth_period,
    {
        self.growth_period
    }

    /// The growth record of period `index` (an empty record counting one era
    /// when none was written).
    pub fn growth(&self, index: u32) -> (r: GrowthInfo)
        ensures
            r@ == growth_of(self@, index),
    {
        match self.growth.get(&index) {
            Some(g) => g.copy(),
            None => GrowthInfo::new(1),
        }
    }

    /// The reward available to stakers.
    pub fn reward_pot(&self) -> (r: u128)
        ensures
            r == self@.reward_pot,
    {
        self.reward_pot
    }

    /// Sets the reward available to stakers.
    pub fn set_reward_pot(&mut self, amount: u128)
        requires
            staking_wf(old(self)@),
        ensures
            final(self)@ == (StakingView { reward_pot: amount, ..old(self)@ }),
            staking_wf(final(self)@),
    {
        self.reward_pot = amount;
    }

    /// Awards `points` to `collator` in `era` (as authoring a block does).
    pub fn award_points(&mut self, era: u32, collator: u64, points: u32)
        requires
            staking_wf(old(self)@),
        ensures
            final(self)@ == award_points_post(old(self)@, era, collator, points),
            staking_wf(final(self)@),
    {
        let ghost f = |v: Vec<CollatorScore>| scores_view(v);
        let mut scores = match self.awarded_pts.get(&era) {
            Some(v) => copy_scores(v),
            None => Vec::new(),
        };
        add_score_to(&mut scores, CollatorScore { collator, value: points });
        let ghost raw = self.awarded_pts@;
        let ghost sv = scores;
        self.awarded_pts.insert(era, scores);
        proof {
            lemma_map_values_insert(raw, era, sv, f);
            lemma_wf_frame(old(self)@, self@);
        }
    }

    /// Records the payout of `payout_era` in the growth records.
    fn record_growth(&mut self, payout_era: u32)
        ensures
            final(self)@ == record_growth(old(self)@, payout_era),
    {
        let ghost f = |g: GrowthInfo| growth_view(g);
        let scores = match self.awarded_pts.get(&payout_era) {
            Some(v) => copy_scores(v),
            None => Vec::new(),
        };
        let stake = match self.staked.get(&payout_era) {
            Some(x) => *x,
            None => 0,
        };
        let points = sum_scores(&scores);
        let reward = self.reward_pot;
        let info = self.growth_period;
        if info.index == 0 || payout_era >= info.start_era_index.saturating_add(
            self.config.eras_per_growth_period,
        ) {
            let index = info.index.saturating_add(1);
            self.growth_period = GrowthPeriodInfo { start_era_index: payout_era, index };
            let g = GrowthInfo {
                number_of_accumulations: 1,
                total_stake_accumulated: stake,
                total_staker_reward: reward,
                total_points: points,
                collator_scores: scores,
            };
            let ghost raw = self.growth@;
            let ghost gv = g;
            self.growth.insert(index, g);
            proof {
                lemma_map_values_insert(raw, index, gv, f);
            }
        } else {
            let mut g = match self.growth.get(&info.index) {
                Some(g) => g.copy(),
                None => GrowthInfo::new(1),
            };
            g.number_of_accumulations = g.number_of_accumulations.saturating_add(1);
            g.total_stake_accumulated = g.total_stake_accumulated.saturating_add(stake);
            g.total_staker_reward = g.total_staker_reward.saturating_add(reward);
            g.total_points = g.total_points.saturating_add(points);
            merge_scores_into(&mut g.collator_scores, &scores);
            let ghost raw = self.growth@;
            let ghost gv = g;
            self.growth.insert(info.index, g);
            proof {
                lemma_map_values_insert(raw, info.index, gv, f);
            }
        }
    }

    /// Starts the era that begins at block `now`.
    fn start_era(&mut self, now: u64)
        ensures
            final(self)@ == start_era(old(self)@, now),
    {
        let selected = self.candidate_pool.len();
        let total = self.total;
        self.era = EraInfo { current: self.era.current.saturating_add(1), first: now, length: self.era.length };
        let current = self.era.current;
        self.staked.insert(current, total);
        let delay = self.config.reward_payment_delay;
        if current > delay {
            self.record_growth(current - delay);
        }
        #[verifier::truncate]
        let selected32 = selected as u32;
        self.events.push(
            Event::NewEra {
                starting_block: now,
                era: current,
                selected_collators_number: selected32,
                total_balance: total,
            },
        );
    }

    /// Starts block `now`: a new era begins when the current one has lasted
    /// its length.
    pub fn on_initialize(&mut self, now: u64)
        requires
            staking_wf(old(self)@),
        ensures
            final(self)@ == on_initialize_post(old(self)@, now),
            staking_wf(final(self)@),
    {
        self.block_number = now;
        if self.era.should_update(now) {
            self.start_era(now);
        }
        proof {
            lemma_wf_frame(old(self)@, self@);
        }
    }
}


impl Pallet {
    /// Makes `who` a candidate with `bond`: it must not be a candidate or a
    /// nominator already, `bond` must reach the candidate minimum, and its
    /// free balance must cover `bond`. The candidate gets fresh metadata and
    /// empty lists, enters the pool with its bond, the bond is added to the
    /// staked total, and `JoinedCollatorCandidates` is reported. A refused
    /// call changes nothing. The staked total stays what the candidates
    /// bonded plus what the nominators nominated, unless the addition
    /// overflows.
    pub fn join_candidates(&mut self, who: u64, bond: u128) -> (r: Result<(), Error>)
        requires
            staking_wf(old(self)@),
        ensures
            staking_wf(final(self)@),
            match r {
                Ok(()) => join_candidates_error(old(self)@, who, bond) is None && final(self)@
                    == join_candidates_post(old(self)@, who, bond),
                Err(e) => join_candidates_error(old(self)@, who, bond) == Some(e) && final(self)@ == old(
                    self,
                )@,
            },
            total_accounted(old(self)@) && old(self)@.total + bond <= u128::MAX ==> total_accounted(final(self)@),
    {
        let ghost fl = |n: Nominations| nominations_view(n);
        if self.is_candidate(who) {
            return Err(Error::CandidateExists);
        }
        if self.is_nominator(who) {
            return Err(Error::NominatorExists);
        }
        if bond < self.min_collator_stake {
            return Err(Error::CandidateBondBelowMin);
        }
        if self.free_balance(who) < bond {
            return Err(Error::InsufficientBalance);
        }
        proof {
            lemma_join_candidates_preserves_wf(old(self)@, who, bond);
            if total_accounted(old(self)@) && old(self)@.total + bond <= u128::MAX {
                lemma_join_accounted(old(self)@, who, bond);
            }
        }
        self.candidate_info.insert(who, CandidateMetadata::new(bond));
        let ghost raw_top = self.top_nominations@;
        let ghost raw_bottom = self.bottom_nominations@;
        let top = Nominations::empty();
        let bottom = Nominations::empty();
        let ghost tv = top;
        let ghost bv = bottom;
        self.top_nominations.insert(who, top);
        self.bottom_nominations.insert(who, bottom);
        proof {
            lemma_map_values_insert(raw_top, who, tv, fl);
            lemma_map_values_insert(raw_bottom, who, bv, fl);
        }
        self.candidate_pool.insert(who, bond);
        let new_total = self.total.saturating_add(bond);
        self.total = new_total;
        self.events.push(
            Event::JoinedCollatorCandidates { account: who, amount_locked: bond, new_total_amt_locked: new_total },
        );
        Ok(())
    }

    /// Applies the setting `value`: only the root origin may, and only a
    /// valid value (a delay of at least one era, a nominator minimum no lower
    /// than the least nomination per collator). The new value is stored and
    /// `AdminSettingsUpdated` is reported. A refused call changes nothing.
    pub fn set_admin_setting(&mut self, origin: Origin, value: AdminSettings) -> (r: Result<(), Error>)
        requires
            staking_wf(old(self)@),
        ensures
            staking_wf(final(self)@),
            match r {
                Ok(()) => admin_setting_error(old(self)@, origin, value) is None && final(self)@
                    == admin_setting_post(old(self)@, value),
                Err(e) => admin_setting_error(old(self)@, origin, value) == Some(e) && final(self)@ == old(
                    self,
                )@,
            },
    {
        match origin {
            Origin::Root => {},
            _ => {
                return Err(Error::BadOrigin);
            },
        }
        let valid = match value {
            AdminSettings::Delay(d) => d > 0,
            AdminSettings::MinCollatorStake(_) => true,
            AdminSettings::MinNominatorStake(v) => v >= self.config.min_nomination_per_collator,
        };
        if !valid {
            return Err(Error::AdminSettingsValueIsNotValid);
        }
        match value {
            AdminSettings::Delay(d) => {
                self.delay = d;
            },
            AdminSettings::MinCollatorStake(v) => {
                self.min_collator_stake = v;
            },
            AdminSettings::MinNominatorStake(v) => {
                self.min_total_nominator_stake = v;
            },
        }
        self.events.push(Event::AdminSettingsUpdated { value });
        proof {
            lemma_wf_frame(old(self)@, self@);
        }
        Ok(())
    }
}


impl Pallet {
    /// Records the staked total as the stake of the current era (as the
    /// pallet's genesis does for the first era once its candidates joined).
    pub fn record_current_era_stake(&mut self)
        requires
            staking_wf(old(self)@),
        ensures
            final(self)@ == (StakingView {
                staked: old(self)@.staked.insert(old(self)@.era.current, old(self)@.total),
                ..old(self)@
            }),
            staking_wf(final(self)@),
    {
        let era = self.era.current;
        let total = self.total;
        self.staked.insert(era, total);
        proof {
            lemma_wf_frame(old(self)@, self@);
        }
    }
}

} // verus!
