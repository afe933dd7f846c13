use parachain_staking::bond::Bond;
use parachain_staking::candidate::CapacityStatus;
use parachain_staking::nominator::NominatorStatus;
use parachain_staking::pallet::Pallet;
use parachain_staking::types::{Error, Event, NominatorAdded, StakingConfig};

fn config(max_top: u32, max_bottom: u32) -> StakingConfig {
    StakingConfig {
        min_nomination_per_collator: 3,
        max_nominations_per_nominator: 4,
        max_top_nominations_per_candidate: max_top,
        max_bottom_nominations_per_candidate: max_bottom,
        reward_payment_delay: 2,
        eras_per_growth_period: 2,
        blocks_per_era: 5,
    }
}

fn build_with(cfg: StakingConfig, balances: Vec<(u64, u128)>, candidates: Vec<(u64, u128)>) -> Pallet {
    let mut p = Pallet::new(cfg, 10, 10, 2);
    for (who, amount) in balances {
        p.set_free_balance(who, amount);
    }
    for (who, bond) in candidates {
        assert_eq!(p.join_candidates(who, bond), Ok(()));
    }
    p
}

fn build(balances: Vec<(u64, u128)>, candidates: Vec<(u64, u128)>) -> Pallet {
    build_with(config(4, 4), balances, candidates)
}

fn last_event(p: &Pallet) -> Event {
    *p.events().last().unwrap()
}

fn assert_refused(p: &mut Pallet, nominator: u64, candidate: u64, amount: u128, ccount: u32, ncount: u32, e: Error) {
    let events = p.events().len();
    let total = p.total();
    let stakable = p.get_nominator_stakable_free_balance(nominator);
    assert_eq!(p.call_nominate(nominator, candidate, amount, ccount, ncount), Err(e));
    assert_eq!(p.events().len(), events);
    assert_eq!(p.total(), total);
    assert_eq!(p.get_nominator_stakable_free_balance(nominator), stakable);
}

#[test]
fn first_nomination_succeeds() {
    let mut p = build(vec![(1, 100), (10, 100)], vec![(1, 10)]);
    assert_eq!(p.call_nominate(10, 1, 20, 0, 0), Ok(()));

    let state = p.nominator_state(10).unwrap();
    assert_eq!(state.total(), 20);
    assert_eq!(state.nominations.0, vec![Bond { owner: 1, amount: 20 }]);
    assert_eq!(state.less_total, 0);
    assert_eq!(state.status, NominatorStatus::Active);

    let info = p.candidate_info(1).unwrap();
    assert_eq!(info.total_counted, 30);
    assert_eq!(info.nomination_count, 1);
    assert_eq!(info.lowest_top_nomination_amount, 20);
    assert_eq!(info.top_capacity, CapacityStatus::Partial);
    assert_eq!(info.bottom_capacity, CapacityStatus::Empty);

    let top = p.top_nominations(1).unwrap();
    assert_eq!(top.nominations, vec![Bond { owner: 10, amount: 20 }]);
    assert_eq!(top.total, 20);
    assert!(p.bottom_nominations(1).unwrap().nominations.is_empty());

    assert_eq!(p.total(), 30);
    assert_eq!(p.candidate_pool_amount(1), Some(30));
    assert_eq!(p.locked_balance(10), 20);
    assert_eq!(p.get_nominator_stakable_free_balance(10), 80);
    assert_eq!(
        last_event(&p),
        Event::Nomination {
            nominator: 10,
            locked_amount: 20,
            candidate: 1,
            nominator_position: NominatorAdded::AddedToTop { new_total: 30 },
        }
    );
}

#[test]
fn nominations_are_kept_in_candidate_order() {
    let mut p = build(vec![(1, 100), (2, 100), (10, 100)], vec![(1, 10), (2, 10)]);
    assert_eq!(p.call_nominate(10, 2, 20, 0, 0), Ok(()));
    assert_eq!(p.call_nominate(10, 1, 15, 0, 1), Ok(()));
    let state = p.nominator_state(10).unwrap();
    assert_eq!(state.nominations.0, vec![Bond { owner: 1, amount: 15 }, Bond { owner: 2, amount: 20 }]);
    assert_eq!(state.total(), 35);
    assert_eq!(p.locked_balance(10), 35);
    assert_eq!(p.get_nominator_stakable_free_balance(10), 65);
    assert_eq!(p.total(), 20 + 20 + 15);
}

#[test]
fn refused_when_balance_is_insufficient() {
    let mut p = build(vec![(1, 100), (10, 15)], vec![(1, 10)]);
    assert_refused(&mut p, 10, 1, 20, 0, 0, Error::InsufficientBalance);
    assert!(p.nominator_state(10).is_none());
}

#[test]
fn refused_when_first_nomination_is_below_min() {
    let mut p = build(vec![(1, 100), (10, 100)], vec![(1, 10)]);
    assert_refused(&mut p, 10, 1, 9, 0, 0, Error::NominatorBondBelowMin);
}

#[test]
fn refused_when_candidate_nominates_first() {
    let mut p = build(vec![(1, 100), (2, 100)], vec![(1, 10), (2, 10)]);
    assert_refused(&mut p, 2, 1, 20, 0, 0, Error::CandidateExists);
}

#[test]
fn refused_when_candidate_does_not_exist() {
    let mut p = build(vec![(1, 100), (10, 100)], vec![(1, 10)]);
    assert_refused(&mut p, 10, 99, 20, 0, 0, Error::CandidateDNE);
}

#[test]
fn refused_when_candidate_count_hint_is_low() {
    let mut p = build(vec![(1, 100), (10, 100), (11, 100)], vec![(1, 10)]);
    assert_eq!(p.call_nominate(10, 1, 20, 0, 0), Ok(()));
    assert_refused(&mut p, 11, 1, 20, 0, 0, Error::TooLowCandidateNominationCountToNominate);
    assert_eq!(p.call_nominate(11, 1, 20, 1, 0), Ok(()));
}

#[test]
fn refused_when_later_nomination_is_below_min() {
    let mut p = build(vec![(1, 100), (2, 100), (10, 100)], vec![(1, 10), (2, 10)]);
    assert_eq!(p.call_nominate(10, 1, 20, 0, 0), Ok(()));
    assert_refused(&mut p, 10, 2, 2, 0, 1, Error::NominationBelowMin);
    assert_eq!(p.call_nominate(10, 2, 3, 0, 1), Ok(()));
}

#[test]
fn refused_when_nomination_count_hint_is_low() {
    let mut p = build(vec![(1, 100), (2, 100), (10, 100)], vec![(1, 10), (2, 10)]);
    assert_eq!(p.call_nominate(10, 1, 20, 0, 0), Ok(()));
    assert_refused(&mut p, 10, 2, 20, 0, 0, Error::TooLowNominationCountToNominate);
}

#[test]
fn refused_when_nominator_has_max_nominations() {
    let mut p = build(
        vec![(1, 100), (2, 100), (3, 100), (4, 100), (5, 100), (10, 1000)],
        vec![(1, 10), (2, 10), (3, 10), (4, 10), (5, 10)],
    );
    for (i, c) in [1u64, 2, 3, 4].iter().enumerate() {
        assert_eq!(p.call_nominate(10, *c, 20, 0, i as u32), Ok(()));
    }
    assert_refused(&mut p, 10, 5, 20, 0, 4, Error::ExceedMaxNominationsPerNominator);
}

#[test]
fn refused_when_candidate_is_already_nominated() {
    let mut p = build(vec![(1, 100), (10, 100)], vec![(1, 10)]);
    assert_eq!(p.call_nominate(10, 1, 20, 0, 0), Ok(()));
    assert_refused(&mut p, 10, 1, 20, 1, 1, Error::AlreadyNominatedCandidate);
}

#[test]
fn refused_when_both_lists_are_full_and_amount_too_low() {
    let mut p = build_with(config(1, 1), vec![(1, 100), (10, 100), (11, 100), (12, 100)], vec![(1, 10)]);
    assert_eq!(p.call_nominate(10, 1, 20, 0, 0), Ok(()));
    assert_eq!(p.call_nominate(11, 1, 15, 1, 0), Ok(()));
    // Equal to the lowest bottom amount: no room.
    assert_refused(&mut p, 12, 1, 15, 2, 0, Error::CannotNominateLessThanOrEqualToLowestBottomWhenFull);
}

#[test]
fn nomination_below_full_top_goes_to_bottom() {
    let mut p = build_with(config(1, 2), vec![(1, 100), (10, 100), (11, 100)], vec![(1, 10)]);
    assert_eq!(p.call_nominate(10, 1, 20, 0, 0), Ok(()));
    assert_eq!(p.call_nominate(11, 1, 10, 1, 0), Ok(()));
    assert_eq!(
        last_event(&p),
        Event::Nomination {
            nominator: 11,
            locked_amount: 10,
            candidate: 1,
            nominator_position: NominatorAdded::AddedToBottom,
        }
    );
    let info = p.candidate_info(1).unwrap();
    assert_eq!(info.total_counted, 30);
    assert_eq!(info.nomination_count, 2);
    assert_eq!(info.lowest_bottom_nomination_amount, 10);
    assert_eq!(info.highest_bottom_nomination_amount, 10);
    assert_eq!(info.bottom_capacity, CapacityStatus::Partial);
    assert_eq!(p.bottom_nominations(1).unwrap().nominations, vec![Bond { owner: 11, amount: 10 }]);
    assert_eq!(p.total(), 40);
}

#[test]
fn higher_nomination_moves_lowest_top_to_bottom() {
    let mut p = build_with(config(1, 2), vec![(1, 100), (10, 100), (11, 100)], vec![(1, 10)]);
    assert_eq!(p.call_nominate(10, 1, 10, 0, 0), Ok(()));
    assert_eq!(p.call_nominate(11, 1, 20, 1, 0), Ok(()));
    assert_eq!(
        last_event(&p),
        Event::Nomination {
            nominator: 11,
            locked_amount: 20,
            candidate: 1,
            nominator_position: NominatorAdded::AddedToTop { new_total: 30 },
        }
    );
    assert_eq!(p.top_nominations(1).unwrap().nominations, vec![Bond { owner: 11, amount: 20 }]);
    assert_eq!(p.bottom_nominations(1).unwrap().nominations, vec![Bond { owner: 10, amount: 10 }]);
    let info = p.candidate_info(1).unwrap();
    assert_eq!(info.total_counted, 30);
    assert_eq!(info.nomination_count, 2);
    assert_eq!(info.lowest_top_nomination_amount, 20);
    assert_eq!(info.top_capacity, CapacityStatus::Full);
    assert_eq!(p.candidate_pool_amount(1), Some(30));
    assert_eq!(p.total(), 40);
}

#[test]
fn full_bottom_kicks_its_lowest_nomination() {
    let mut p = build_with(config(1, 1), vec![(1, 100), (10, 100), (11, 100), (12, 100)], vec![(1, 10)]);
    assert_eq!(p.call_nominate(10, 1, 10, 0, 0), Ok(()));
    assert_eq!(p.call_nominate(11, 1, 20, 1, 0), Ok(()));
    // top [11: 20], bottom [10: 10]; 15 goes to the bottom and kicks 10.
    let events_before = p.events().len();
    assert_eq!(p.call_nominate(12, 1, 15, 2, 0), Ok(()));
    let events = p.events();
    assert_eq!(events.len(), events_before + 3);
    assert_eq!(events[events_before], Event::NominationKicked { nominator: 10, candidate: 1, unstaked_amount: 10 });
    assert_eq!(events[events_before + 1], Event::NominatorLeft { nominator: 10, unstaked_amount: 10 });
    assert_eq!(
        events[events_before + 2],
        Event::Nomination {
            nominator: 12,
            locked_amount: 15,
            candidate: 1,
            nominator_position: NominatorAdded::AddedToBottom,
        }
    );
    assert!(p.nominator_state(10).is_none());
    assert_eq!(p.locked_balance(10), 0);
    assert_eq!(p.get_nominator_stakable_free_balance(10), 100);
    assert_eq!(p.bottom_nominations(1).unwrap().nominations, vec![Bond { owner: 12, amount: 15 }]);
    let info = p.candidate_info(1).unwrap();
    assert_eq!(info.nomination_count, 2);
    assert_eq!(info.lowest_bottom_nomination_amount, 15);
    // 10 + 10 + 20, then +15 - 10.
    assert_eq!(p.total(), 45);
}

#[test]
fn kicked_nominator_keeps_its_other_nominations() {
    let mut p = build_with(
        config(1, 1),
        vec![(1, 100), (2, 100), (10, 100), (11, 100), (12, 100)],
        vec![(1, 10), (2, 10)],
    );
    assert_eq!(p.call_nominate(10, 2, 12, 0, 0), Ok(()));
    assert_eq!(p.call_nominate(10, 1, 10, 0, 1), Ok(()));
    assert_eq!(p.call_nominate(11, 1, 20, 1, 0), Ok(()));
    assert_eq!(p.call_nominate(12, 1, 15, 2, 0), Ok(()));
    let state = p.nominator_state(10).unwrap();
    assert_eq!(state.nominations.0, vec![Bond { owner: 2, amount: 12 }]);
    assert_eq!(state.total(), 12);
    assert_eq!(p.locked_balance(10), 12);
    assert_eq!(
        *p.events().last().unwrap(),
        Event::Nomination {
            nominator: 12,
            locked_amount: 15,
            candidate: 1,
            nominator_position: NominatorAdded::AddedToBottom,
        }
    );
    assert!(!p.events().contains(&Event::NominatorLeft { nominator: 10, unstaked_amount: 10 }));
}

#[test]
fn equal_amounts_keep_arrival_order() {
    let mut p = build_with(config(1, 3), vec![(1, 100), (10, 100), (11, 100), (12, 100), (13, 100)], vec![(1, 10)]);
    assert_eq!(p.call_nominate(10, 1, 20, 0, 0), Ok(()));
    assert_eq!(p.call_nominate(11, 1, 10, 1, 0), Ok(()));
    assert_eq!(p.call_nominate(12, 1, 10, 2, 0), Ok(()));
    assert_eq!(p.call_nominate(13, 1, 15, 3, 0), Ok(()));
    assert_eq!(
        p.bottom_nominations(1).unwrap().nominations,
        vec![Bond { owner: 13, amount: 15 }, Bond { owner: 11, amount: 10 }, Bond { owner: 12, amount: 10 }]
    );
    let bottom = p.bottom_nominations(1).unwrap();
    assert_eq!(bottom.total, 35);
    let info = p.candidate_info(1).unwrap();
    assert_eq!(info.highest_bottom_nomination_amount, 15);
    assert_eq!(info.lowest_bottom_nomination_amount, 10);
    assert_eq!(info.bottom_capacity, CapacityStatus::Full);
    assert_eq!(info.nomination_count, 4);
}

#[test]
fn stakable_balance_drops_by_exactly_the_amount() {
    let mut p = build(vec![(1, 100), (2, 100), (10, 90)], vec![(1, 10), (2, 10)]);
    let before = p.get_nominator_stakable_free_balance(10);
    assert_eq!(p.call_nominate(10, 1, 25, 0, 0), Ok(()));
    assert_eq!(p.get_nominator_stakable_free_balance(10), before - 25);
    assert_eq!(p.call_nominate(10, 2, 65, 0, 1), Ok(()));
    assert_eq!(p.get_nominator_stakable_free_balance(10), 0);
    assert_eq!(p.free_balance(10), 90);
}

#[test]
fn nominator_is_placed_in_exactly_one_list() {
    let mut p = build_with(config(1, 2), vec![(1, 100), (10, 100), (11, 100)], vec![(1, 10)]);
    assert_eq!(p.call_nominate(10, 1, 20, 0, 0), Ok(()));
    assert_eq!(p.call_nominate(11, 1, 30, 1, 0), Ok(()));
    for who in [10u64, 11] {
        let in_top = p.top_nominations(1).unwrap().nominations.iter().any(|b| b.owner == who);
        let in_bottom = p.bottom_nominations(1).unwrap().nominations.iter().any(|b| b.owner == who);
        assert!(in_top != in_bottom);
    }
}

#[test]
fn join_candidates_records_the_candidate() {
    let mut p = build(vec![(1, 100)], vec![]);
    assert_eq!(p.join_candidates(1, 40), Ok(()));
    let info = p.candidate_info(1).unwrap();
    assert_eq!(info.bond, 40);
    assert_eq!(info.total_counted, 40);
    assert_eq!(info.nomination_count, 0);
    assert_eq!(info.top_capacity, CapacityStatus::Empty);
    assert_eq!(p.candidate_pool_amount(1), Some(40));
    assert_eq!(p.total(), 40);
    assert_eq!(
        last_event(&p),
        Event::JoinedCollatorCandidates { account: 1, amount_locked: 40, new_total_amt_locked: 40 }
    );
}

#[test]
fn join_candidates_refusals() {
    let mut p = build(vec![(1, 100), (2, 100), (3, 5), (10, 100)], vec![(1, 10), (2, 10)]);
    assert_eq!(p.call_nominate(10, 1, 20, 0, 0), Ok(()));
    let events = p.events().len();
    assert_eq!(p.join_candidates(1, 10), Err(Error::CandidateExists));
    assert_eq!(p.join_candidates(10, 10), Err(Error::NominatorExists));
    assert_eq!(p.join_candidates(4, 9), Err(Error::CandidateBondBelowMin));
    assert_eq!(p.join_candidates(3, 10), Err(Error::InsufficientBalance));
    assert_eq!(p.events().len(), events);
    assert!(!p.is_candidate(3));
}

#[test]
fn succeeds_with_good_parameters() {
    let collator_1 = 1u64;
    let collator_2 = 2u64;
    let staker = 100u64;
    let initial_collator_stake = 10;
    let initial_balance = 10000;
    let mut p = build(
        vec![(collator_1, initial_balance), (collator_2, initial_balance), (staker, initial_balance)],
        vec![(collator_1, initial_collator_stake), (collator_2, initial_collator_stake)],
    );
    let collators = vec![collator_1, collator_2];
    let min_user_stake = p.min_total_nominator_stake();

    // An amount that is not divisible by the number of collators: the
    // second collator takes the dust.
    let dust = 1u128;
    let amount_to_stake = (min_user_stake * 2u128) + dust;
    assert_eq!(p.call_nominate(staker, collator_1, min_user_stake, 0, 0), Ok(()));
    assert_eq!(p.call_nominate(staker, collator_2, min_user_stake + dust, 0, 1), Ok(()));

    // The staker state holds both nominations.
    let staker_state = p.nominator_state(staker).unwrap();
    assert_eq!(staker_state.total(), amount_to_stake);

    for (index, collator) in collators.into_iter().enumerate() {
        let mut staked_amount = min_user_stake;
        if index == 1 {
            staked_amount = min_user_stake + dust;
        }
        assert!(p.events().contains(&Event::Nomination {
            nominator: staker,
            locked_amount: staked_amount,
            candidate: collator,
            nominator_position: NominatorAdded::AddedToTop { new_total: initial_collator_stake + staked_amount },
        }));

        assert_eq!(staker_state.nominations.0[index].owner, collator);
        assert_eq!(staker_state.nominations.0[index].amount, staked_amount);

        let collator_state = p.candidate_info(collator).unwrap();
        assert_eq!(collator_state.total_counted, initial_collator_stake + staked_amount);

        let top_nominations = p.top_nominations(collator).unwrap();
        assert_eq!(top_nominations.nominations[0].owner, staker);
        assert_eq!(top_nominations.nominations[0].amount, staked_amount);
        assert_eq!(top_nominations.total, staked_amount);
    }

    // The staker's stakable balance has been reduced, and the staked total
    // holds both bonds and both nominations.
    assert_eq!(p.get_nominator_stakable_free_balance(staker), 10000 - amount_to_stake);
    assert_eq!(p.total(), 2 * initial_collator_stake + amount_to_stake);
}

#[test]
fn kicked_nomination_is_below_the_new_one_and_the_total_grows_by_the_difference() {
    let mut p = build_with(
        config(1, 1),
        vec![(1, 100), (10, 100), (11, 100), (12, 100)],
        vec![(1, 10)],
    );
    assert_eq!(p.call_nominate(10, 1, 30, 10, 0), Ok(()));
    assert_eq!(p.call_nominate(11, 1, 20, 10, 0), Ok(()));
    assert_eq!(p.total(), 60);
    // Both lists are full: 12 beats the top, 30 moves down, and 20 is kicked.
    assert_eq!(p.call_nominate(12, 1, 40, 10, 0), Ok(()));
    assert_eq!(p.total(), 60 + 40 - 20);
    assert_eq!(p.top_nominations(1).unwrap().nominations, vec![Bond { owner: 12, amount: 40 }]);
    assert_eq!(p.bottom_nominations(1).unwrap().nominations, vec![Bond { owner: 10, amount: 30 }]);
    assert!(p.nominator_state(11).is_none());
    // The staked total is still the bond plus what the nominators hold.
    let held: u128 = [10u64, 11, 12].iter().map(|x| p.nominator_state(*x).map(|s| s.total()).unwrap_or(0)).sum();
    assert_eq!(p.total(), 10 + held);
}
