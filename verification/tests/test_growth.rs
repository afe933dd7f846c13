use std::collections::HashMap;
use parachain_staking::growth::{CollatorScore, GrowthInfo};
use parachain_staking::pallet::Pallet;
use parachain_staking::types::{Event, StakingConfig};

const DEFAULT_POINTS: u32 = 5;
const REWARD_PAYMENT_DELAY: u32 = 2;
const ERAS_PER_GROWTH_PERIOD: u32 = 2;
const BLOCKS_PER_ERA: u32 = 5;

fn test_config() -> StakingConfig {
    StakingConfig {
        min_nomination_per_collator: 3,
        max_nominations_per_nominator: 4,
        max_top_nominations_per_candidate: 20,
        max_bottom_nominations_per_candidate: 20,
        reward_payment_delay: REWARD_PAYMENT_DELAY,
        eras_per_growth_period: ERAS_PER_GROWTH_PERIOD,
        blocks_per_era: BLOCKS_PER_ERA,
    }
}

fn build(balances: Vec<(u64, u128)>, candidates: Vec<(u64, u128)>) -> Pallet {
    let mut p = Pallet::new(test_config(), 10, 10, 2);
    for (who, amount) in balances {
        p.set_free_balance(who, amount);
    }
    for (who, bond) in candidates {
        assert_eq!(p.join_candidates(who, bond), Ok(()));
    }
    p.record_current_era_stake();
    p
}

fn roll_to(p: &mut Pallet, n: u64) {
    while p.block_number() < n {
        let next = p.block_number() + 1;
        p.on_initialize(next);
    }
}

fn roll_to_era_begin(p: &mut Pallet, era: u64) {
    roll_to(p, (era - 1) * BLOCKS_PER_ERA as u64);
}

fn roll_one_growth_period(p: &mut Pallet, current_era_index: u32) -> u32 {
    roll_to_era_begin(p, (current_era_index + ERAS_PER_GROWTH_PERIOD) as u64);
    p.era().current
}

fn get_expected_block_number(growth_index: u64) -> u64 {
    BLOCKS_PER_ERA as u64 * ERAS_PER_GROWTH_PERIOD as u64 * growth_index
}

#[test]
fn initial_growth_state_is_ok() {
    let p = build(vec![], vec![]);
    let default_growth = GrowthInfo::new(1u32);

    // Growth period starts from 0
    let growth_period_info = p.growth_period_info();
    assert_eq!(growth_period_info.start_era_index, 0u32);
    assert_eq!(growth_period_info.index, 0u32);

    // The first growth is empty
    let initial_growth = p.growth(0);
    assert_eq!(initial_growth.number_of_accumulations, default_growth.number_of_accumulations);
    assert_eq!(initial_growth.total_stake_accumulated, default_growth.total_stake_accumulated);
    assert_eq!(initial_growth.total_staker_reward, default_growth.total_staker_reward);
    assert_eq!(initial_growth.total_points, default_growth.total_points);
    assert_eq!(initial_growth.collator_scores, default_growth.collator_scores);
}

#[test]
fn growth_period_indices_updated_correctly() {
    let collator_1 = 1u64;
    let collator_2 = 2u64;
    let mut p = build(vec![(collator_1, 100), (collator_2, 100)], vec![(collator_1, 10), (collator_2, 10)]);
    let initial_growth_period_index = 0;
    let mut era_index = p.era().current;

    for n in 1..5 {
        p.award_points(era_index, collator_1, 5);
        p.award_points(era_index, collator_2, 5);
        era_index = roll_one_growth_period(&mut p, era_index);

        let growth_period_info = p.growth_period_info();
        assert_eq!(
            growth_period_info.start_era_index,
            era_index - REWARD_PAYMENT_DELAY,
            "Start era index for n={} does not match expected",
            n
        );
        assert_eq!(
            growth_period_info.index,
            initial_growth_period_index + n,
            "index for n={} does not match expected",
            n
        );
        assert_eq!(
            p.block_number(),
            get_expected_block_number(growth_period_info.index.into()),
            "Block number for n={} does not match expected",
            n
        );
    }
}

#[test]
fn era_changes_every_blocks_per_era_blocks() {
    let mut p = build(vec![], vec![]);
    assert_eq!(p.era().current, 1);
    roll_to(&mut p, BLOCKS_PER_ERA as u64 - 1);
    assert_eq!(p.era().current, 1);
    roll_to(&mut p, BLOCKS_PER_ERA as u64);
    assert_eq!(p.era().current, 2);
    assert_eq!(p.era().first, BLOCKS_PER_ERA as u64);
    roll_to(&mut p, 2 * BLOCKS_PER_ERA as u64);
    assert_eq!(p.era().current, 3);
}

#[test]
fn new_era_event_reports_the_stake() {
    let mut p = build(vec![(1, 100), (2, 100)], vec![(1, 20), (2, 10)]);
    roll_to(&mut p, BLOCKS_PER_ERA as u64);
    assert_eq!(
        *p.events().last().unwrap(),
        Event::NewEra { starting_block: 5, era: 2, selected_collators_number: 2, total_balance: 30 }
    );
}

#[test]
fn first_payout_opens_growth_period_one() {
    let mut p = build(vec![(1, 100), (2, 100)], vec![(1, 20), (2, 10)]);
    p.award_points(1, 1, DEFAULT_POINTS);
    p.award_points(1, 2, DEFAULT_POINTS);
    p.set_reward_pot(6);
    // Era 3 pays out era 1.
    roll_to_era_begin(&mut p, 3);
    assert_eq!(p.era().current, 3);
    let info = p.growth_period_info();
    assert_eq!(info.index, 1);
    assert_eq!(info.start_era_index, 1);
    let growth = p.growth(1);
    assert_eq!(growth.number_of_accumulations, 1);
    assert_eq!(growth.total_points, DEFAULT_POINTS * 2);
    assert_eq!(growth.total_stake_accumulated, 30);
    assert_eq!(growth.total_staker_reward, 6);
    assert_eq!(
        growth.collator_scores,
        vec![CollatorScore { collator: 1, value: 5 }, CollatorScore { collator: 2, value: 5 }]
    );
}

#[test]
fn second_payout_accumulates_into_the_same_period() {
    let mut p = build(vec![(1, 100), (2, 100)], vec![(1, 20), (2, 10)]);
    p.award_points(1, 1, DEFAULT_POINTS);
    p.award_points(1, 2, DEFAULT_POINTS);
    p.award_points(2, 1, DEFAULT_POINTS);
    p.award_points(2, 1, 2);
    p.set_reward_pot(6);
    roll_to_era_begin(&mut p, 3);
    p.set_reward_pot(10);
    roll_to_era_begin(&mut p, 4);
    let info = p.growth_period_info();
    assert_eq!(info.index, 1);
    assert_eq!(info.start_era_index, 1);
    let growth = p.growth(1);
    assert_eq!(growth.number_of_accumulations, ERAS_PER_GROWTH_PERIOD);
    assert_eq!(growth.total_points, 10 + 7);
    assert_eq!(growth.total_stake_accumulated, 60);
    assert_eq!(growth.total_staker_reward, 16);
    assert_eq!(
        growth.collator_scores,
        vec![CollatorScore { collator: 1, value: 12 }, CollatorScore { collator: 2, value: 5 }]
    );
    // The next payout opens period 2.
    roll_to_era_begin(&mut p, 5);
    let info = p.growth_period_info();
    assert_eq!(info.index, 2);
    assert_eq!(info.start_era_index, 3);
    assert_eq!(p.growth(2).number_of_accumulations, 1);
}

#[test]
fn unwritten_growth_period_reads_as_empty() {
    let p = build(vec![], vec![]);
    let g = p.growth(42);
    assert_eq!(g.number_of_accumulations, 1);
    assert_eq!(g.total_stake_accumulated, 0);
    assert!(g.collator_scores.is_empty());
}

#[test]
fn awarded_points_add_up_per_collator() {
    let mut p = build(vec![], vec![]);
    p.award_points(1, 7, 3);
    p.award_points(1, 8, 4);
    p.award_points(1, 7, 2);
    p.set_reward_pot(0);
    roll_to_era_begin(&mut p, 3);
    let g = p.growth(1);
    assert_eq!(g.total_points, 9);
    assert_eq!(
        g.collator_scores,
        vec![CollatorScore { collator: 7, value: 5 }, CollatorScore { collator: 8, value: 4 }]
    );
}

/// The reward in the pot and the stake recorded at the start of an era.
#[derive(Clone, Copy, Debug)]
struct GrowthData {
    reward: u128,
    stake: u128,
}

fn roll_one_era(p: &mut Pallet, current_era: u32) -> u32 {
    roll_to_era_begin(p, (current_era + 1) as u64);
    let next = p.block_number() + 1;
    p.on_initialize(next);
    p.era().current
}

fn set_equal_points_for_collators(p: &mut Pallet, era: u32, collator_1: u64, collator_2: u64) {
    p.award_points(era, collator_1, DEFAULT_POINTS);
    p.award_points(era, collator_2, DEFAULT_POINTS);
}

/// A fresh nominator nominates `amount` behind each collator.
fn increase_collator_nominations(p: &mut Pallet, nominator: u64, collator_1: u64, collator_2: u64, amount: u128) {
    p.set_free_balance(nominator, 10000);
    assert_eq!(p.call_nominate(nominator, collator_1, amount, 1000, 0), Ok(()));
    assert_eq!(p.call_nominate(nominator, collator_2, amount, 1000, 1), Ok(()));
}

fn increase_reward_pot_by(p: &mut Pallet, amount: u128) -> u128 {
    let new_balance = p.reward_pot() + amount;
    p.set_reward_pot(new_balance);
    new_balance
}

/// Runs eras up to `max_era`, changing the stake and the reward pot in each,
/// and returns what each era started with.
fn roll_forward_and_record(
    p: &mut Pallet,
    max_era: u32,
    collator_1: u64,
    collator_2: u64,
    collator1_stake: u128,
    collator2_stake: u128,
) -> HashMap<u32, GrowthData> {
    let mut total_stake = collator1_stake + collator2_stake;
    let mut raw_data: HashMap<u32, GrowthData> = HashMap::new();
    raw_data.insert(1, GrowthData { reward: 0, stake: total_stake });
    let mut era_index = p.era().current;
    let initial_reward = 6u128;

    for n in 1..=max_era - REWARD_PAYMENT_DELAY {
        if n == 1 {
            set_equal_points_for_collators(p, era_index, collator_1, collator_2);
            p.set_reward_pot(initial_reward);
            era_index = roll_one_era(p, era_index);
            assert!(p.events().contains(&Event::NewEra {
                starting_block: BLOCKS_PER_ERA as u64,
                era: 2,
                selected_collators_number: 2,
                total_balance: total_stake,
            }));
            raw_data.insert(era_index, GrowthData { reward: initial_reward, stake: total_stake });
        }

        let reward_amount = (10 * n) as u128;
        let stake_increase = (10 + n) as u128;
        increase_collator_nominations(p, 100 + n as u64, collator_1, collator_2, stake_increase);
        set_equal_points_for_collators(p, era_index, collator_1, collator_2);
        let new_reward_pot_amount = increase_reward_pot_by(p, reward_amount);

        era_index = roll_one_era(p, era_index);
        total_stake += stake_increase * 2;
        assert!(p.events().contains(&Event::NewEra {
            starting_block: BLOCKS_PER_ERA as u64 * (era_index as u64 - 1),
            era: era_index,
            selected_collators_number: 2,
            total_balance: total_stake,
        }));
        raw_data.insert(era_index, GrowthData { reward: new_reward_pot_amount, stake: total_stake });
    }
    raw_data
}

#[test]
fn growth_recorded_for_one_single_period() {
    let (collator_1, collator_2) = (1u64, 2u64);
    let (collator1_stake, collator2_stake) = (20u128, 10u128);
    let mut p = build(vec![(collator_1, 10000), (collator_2, 10000)], vec![(collator_1, 20), (collator_2, 10)]);
    let raw = roll_forward_and_record(&mut p, REWARD_PAYMENT_DELAY + 1, collator_1, collator_2, collator1_stake, collator2_stake);

    assert_eq!(p.growth_period_info().index, 1);
    let growth = p.growth(1);
    assert_eq!(growth.number_of_accumulations, 1);
    assert_eq!(growth.total_points, DEFAULT_POINTS * 2);
    // Payouts are two eras behind: the stake is that of era 1.
    assert_eq!(growth.total_stake_accumulated, raw.get(&1).unwrap().stake);
    // The reward is what the pot held when the period was recorded.
    let current_era_index = p.era().current;
    assert_eq!(growth.total_staker_reward, raw.get(&current_era_index).unwrap().reward);
    assert_eq!(growth.collator_scores.len(), 2usize);
}

#[test]
fn growth_recorded_for_one_accumulated_period() {
    let (collator_1, collator_2) = (1u64, 2u64);
    let mut p = build(vec![(collator_1, 10000), (collator_2, 10000)], vec![(collator_1, 20), (collator_2, 10)]);
    let raw = roll_forward_and_record(
        &mut p,
        REWARD_PAYMENT_DELAY + ERAS_PER_GROWTH_PERIOD,
        collator_1,
        collator_2,
        20,
        10,
    );

    assert_eq!(p.growth_period_info().index, 1);
    let growth = p.growth(1);
    assert_eq!(growth.number_of_accumulations, ERAS_PER_GROWTH_PERIOD);
    assert_eq!(growth.total_points, DEFAULT_POINTS * ERAS_PER_GROWTH_PERIOD * 2);
    assert_eq!(growth.total_stake_accumulated, raw.get(&1).unwrap().stake + raw.get(&2).unwrap().stake);
    assert_eq!(growth.total_staker_reward, raw.get(&3).unwrap().reward + raw.get(&4).unwrap().reward);
}

#[test]
fn growth_recorded_for_multiple_periods() {
    let (collator_1, collator_2) = (1u64, 2u64);
    let mut p = build(vec![(collator_1, 10000), (collator_2, 10000)], vec![(collator_1, 20), (collator_2, 10)]);
    assert_eq!(ERAS_PER_GROWTH_PERIOD, 2, "This test will only work if ErasPerGrowthPeriod is set to 2");
    let raw = roll_forward_and_record(&mut p, 16, collator_1, collator_2, 20, 10);

    let expected_number_of_growth_records = (raw.len() as u32 - REWARD_PAYMENT_DELAY) / REWARD_PAYMENT_DELAY;
    assert_eq!(expected_number_of_growth_records, 7);
    assert_eq!(p.growth_period_info().index, expected_number_of_growth_records);

    // Each period pays out two eras, two eras after they ran.
    let mut payout_era = (1, 2);
    let mut current_era = (3, 4);
    for n in 1..=expected_number_of_growth_records {
        let growth = p.growth(n);
        assert_eq!(growth.number_of_accumulations, ERAS_PER_GROWTH_PERIOD, "accumulations for n={}", n);
        assert_eq!(growth.total_points, DEFAULT_POINTS * 2 * ERAS_PER_GROWTH_PERIOD, "total points for n={}", n);
        assert_eq!(
            growth.total_stake_accumulated,
            raw.get(&payout_era.0).unwrap().stake + raw.get(&payout_era.1).unwrap().stake,
            "total accumulation for n={}",
            n
        );
        assert_eq!(
            growth.total_staker_reward,
            raw.get(&current_era.0).unwrap().reward + raw.get(&current_era.1).unwrap().reward,
            "total reward for n={}",
            n
        );
        assert_eq!(growth.collator_scores.len(), 2usize);
        payout_era = (payout_era.1 + 1, payout_era.1 + 2);
        current_era = (current_era.1 + 1, current_era.1 + 2);
    }
    // The staked total is the candidates' bonds plus two nominations per era.
    assert_eq!(p.total(), 30 + (1..=14u128).map(|n| 2 * (10 + n)).sum::<u128>());
}
