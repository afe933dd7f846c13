//! The configuration, events, errors and call origins of the pallet.
use vstd::prelude::*;

verus! {

/// The constants that a runtime configures the pallet with.
#[derive(Clone, Copy, PartialEq, Eq, Structural, Debug)]
pub struct StakingConfig {
    /// The least amount of each nomination after a nominator's first.
    pub min_nomination_per_collator: u128,
    /// The most candidates that one nominator may nominate.
    pub max_nominations_per_nominator: u32,
    /// The most nominations counted for a candidate (its top nominations).
    pub max_top_nominations_per_candidate: u32,
    /// The most nominations kept but not counted for a candidate (its bottom nominations).
    pub max_bottom_nominations_per_candidate: u32,
    /// How many eras after an era its rewards are paid.
    pub reward_payment_delay: u32,
    /// How many paid-out eras one growth period accumulates.
    pub eras_per_growth_period: u32,
    /// How many blocks an era lasts.
    pub blocks_per_era: u32,
}

/// A configuration that the pallet can work with: each nomination list can
/// hold a nomination (a full list with no room would have no lowest
/// nomination to give up).
pub open spec fn valid_config(c: StakingConfig) -> bool {
    &&& c.max_top_nominations_per_candidate > 0
    &&& c.max_bottom_nominations_per_candidate > 0
}

/// Where a new nomination was placed among a candidate's nominations.
#[derive(Clone, Copy, PartialEq, Eq, Structural, Debug)]
pub enum NominatorAdded {
    /// Counted for the candidate, whose counted total is now `new_total`.
    AddedToTop { new_total: u128 },
    /// Kept among the nominations that are not counted.
    AddedToBottom,
}

/// A setting that the root origin may change.
#[derive(Clone, Copy, PartialEq, Eq, Structural, Debug)]
pub enum AdminSettings {
    /// The number of eras that a scheduled request waits.
    Delay(u32),
    /// The least bond with which a candidate may join.
    MinCollatorStake(u128),
    /// The least amount of a nominator's first nomination.
    MinNominatorStake(u128),
}

/// Who dispatches a call.
#[derive(Clone, Copy, PartialEq, Eq, Structural, Debug)]
pub enum Origin {
    Root,
    Signed(u64),
    Unsigned,
}

/// What the pallet reports, in the order it happened.
#[derive(Clone, Copy, PartialEq, Eq, Structural, Debug)]
pub enum Event {
    /// `nominator` locked `locked_amount` behind `candidate`.
    Nomination { nominator: u64, locked_amount: u128, candidate: u64, nominator_position: NominatorAdded },
    /// The lowest bottom nomination of `candidate` was removed to make room.
    NominationKicked { nominator: u64, candidate: u64, unstaked_amount: u128 },
    /// A nominator whose last nomination was kicked is no longer a nominator.
    NominatorLeft { nominator: u64, unstaked_amount: u128 },
    /// `account` joined the candidates with `amount_locked`.
    JoinedCollatorCandidates { account: u64, amount_locked: u128, new_total_amt_locked: u128 },
    /// A setting was changed.
    AdminSettingsUpdated { value: AdminSettings },
    /// Era `era` started at `starting_block` with `total_balance` at stake.
    NewEra { starting_block: u64, era: u32, selected_collators_number: u32, total_balance: u128 },
}

/// Why a call was refused.
#[derive(Clone, Copy, PartialEq, Eq, Structural, Debug)]
pub enum Error {
    InsufficientBalance,
    NominationBelowMin,
    TooLowNominationCountToNominate,
    ExceedMaxNominationsPerNominator,
    AlreadyNominatedCandidate,
    NominatorBondBelowMin,
    CandidateExists,
    CandidateDNE,
    TooLowCandidateNominationCountToNominate,
    CannotNominateLessThanOrEqualToLowestBottomWhenFull,
    NominatorExists,
    CandidateBondBelowMin,
    AdminSettingsValueIsNotValid,
    BadOrigin,
}

} // verus!
