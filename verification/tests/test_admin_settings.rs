use parachain_staking::pallet::Pallet;
use parachain_staking::types::{AdminSettings, Error, Event, Origin, StakingConfig};

const MIN_NOMINATION: u128 = 3;

fn test_config() -> StakingConfig {
    StakingConfig {
        min_nomination_per_collator: MIN_NOMINATION,
        max_nominations_per_nominator: 4,
        max_top_nominations_per_candidate: 4,
        max_bottom_nominations_per_candidate: 4,
        reward_payment_delay: 2,
        eras_per_growth_period: 2,
        blocks_per_era: 5,
    }
}

fn build_default() -> Pallet {
    Pallet::new(test_config(), 10, 10, 2)
}

fn last_event(p: &Pallet) -> Event {
    *p.events().last().unwrap()
}

#[test]
fn test_admin_settings_can_be_updated() {
    let mut p = build_default();
    let new_delay_value = p.delay() - 1;
    let new_delay_setting = AdminSettings::Delay(new_delay_value);

    assert_eq!(p.set_admin_setting(Origin::Root, new_delay_setting), Ok(()));

    assert_eq!(p.delay(), new_delay_value);
    assert_eq!(last_event(&p), Event::AdminSettingsUpdated { value: new_delay_setting });
}

#[test]
fn updating_fails_if_not_signed() {
    let mut p = build_default();
    let new_delay_value = p.delay() - 1;
    let new_delay_setting = AdminSettings::Delay(new_delay_value);
    let before = p.delay();

    assert_eq!(p.set_admin_setting(Origin::Unsigned, new_delay_setting), Err(Error::BadOrigin));
    assert_eq!(p.delay(), before);
    assert!(p.events().is_empty());
}

#[test]
fn fails_if_not_root() {
    let mut p = build_default();
    let non_root_sender = 20u64;
    let new_delay_value = p.delay() - 1;
    let new_delay_setting = AdminSettings::Delay(new_delay_value);
    let before = p.delay();

    assert_eq!(
        p.set_admin_setting(Origin::Signed(non_root_sender), new_delay_setting),
        Err(Error::BadOrigin)
    );
    assert_eq!(p.delay(), before);
    assert!(p.events().is_empty());
}

#[test]
fn fails_if_delay_is_0() {
    let mut p = build_default();
    let bad_delay_value = 0;
    let new_delay_setting = AdminSettings::Delay(bad_delay_value);
    let before = p.delay();

    assert_eq!(
        p.set_admin_setting(Origin::Root, new_delay_setting),
        Err(Error::AdminSettingsValueIsNotValid)
    );
    assert_eq!(p.delay(), before);
    assert!(p.events().is_empty());
}

#[test]
fn min_nominator_stake_admin_setting_can_be_updated() {
    let mut p = build_default();
    let new_min_value = p.min_total_nominator_stake() - 1;
    let new_min_setting = AdminSettings::MinNominatorStake(new_min_value);

    assert_eq!(p.set_admin_setting(Origin::Root, new_min_setting), Ok(()));

    assert_eq!(p.min_total_nominator_stake(), new_min_value);
    assert_eq!(last_event(&p), Event::AdminSettingsUpdated { value: new_min_setting });
}

#[test]
fn fails_if_value_is_below_min_nominations() {
    let mut p = build_default();
    let bad_min_value = MIN_NOMINATION - 1;
    let new_min_setting = AdminSettings::MinNominatorStake(bad_min_value);
    let before = p.min_total_nominator_stake();

    assert_eq!(
        p.set_admin_setting(Origin::Root, new_min_setting),
        Err(Error::AdminSettingsValueIsNotValid)
    );
    assert_eq!(p.min_total_nominator_stake(), before);
    assert!(p.events().is_empty());
}

#[test]
fn can_be_updated() {
    let mut p = build_default();
    let new_min_value = p.min_collator_stake() - 1;
    let new_min_setting = AdminSettings::MinCollatorStake(new_min_value);

    assert_eq!(p.set_admin_setting(Origin::Root, new_min_setting), Ok(()));

    assert_eq!(p.min_collator_stake(), new_min_value);
    assert_eq!(last_event(&p), Event::AdminSettingsUpdated { value: new_min_setting });
}

#[test]
fn can_be_set_to_0() {
    let mut p = build_default();
    let new_min_value = 0;
    let new_min_setting = AdminSettings::MinCollatorStake(new_min_value);

    assert_eq!(p.set_admin_setting(Origin::Root, new_min_setting), Ok(()));

    assert_eq!(p.min_collator_stake(), new_min_value);
    assert_eq!(last_event(&p), Event::AdminSettingsUpdated { value: new_min_setting });
}

#[test]
fn min_nominator_stake_can_equal_min_nomination() {
    let mut p = build_default();
    let setting = AdminSettings::MinNominatorStake(MIN_NOMINATION);
    assert_eq!(p.set_admin_setting(Origin::Root, setting), Ok(()));
    assert_eq!(p.min_total_nominator_stake(), MIN_NOMINATION);
}

#[test]
fn non_root_is_refused_whatever_the_value() {
    let mut p = build_default();
    for value in [
        AdminSettings::Delay(0),
        AdminSettings::Delay(7),
        AdminSettings::MinCollatorStake(1),
        AdminSettings::MinNominatorStake(0),
    ] {
        assert_eq!(p.set_admin_setting(Origin::Signed(1), value), Err(Error::BadOrigin));
        assert_eq!(p.set_admin_setting(Origin::Unsigned, value), Err(Error::BadOrigin));
    }
    assert!(p.events().is_empty());
}
