use opensquare::mining::{Event, MiningError, MiningPowerBuilder, Module as Mining};

#[test]
fn power_accumulates_in_the_current_session() {
    let mut m = Mining::new(100);
    assert_eq!(m.get_now_session_index(0), 0);
    assert_eq!(m.get_now_session_index(99), 0);
    assert_eq!(m.get_now_session_index(100), 1);
    m.add_mining_power(&1, 30, 5);
    m.add_mining_power(&1, 20, 99);
    m.add_mining_power(&1, 7, 100);
    m.add_session_total_mining_power(50, 10);
    assert_eq!(m.session_account_mining_power(0, 1), 50);
    assert_eq!(m.session_account_mining_power(1, 1), 7);
    assert_eq!(m.session_total_mining_power(0), 50);
    assert_eq!(m.session_total_mining_power(1), 0);
    assert_eq!(
        m.events().clone(),
        vec![
            Event::AccountMiningPowerSet(1, 0, 30),
            Event::AccountMiningPowerSet(1, 0, 50),
            Event::AccountMiningPowerSet(1, 1, 7),
            Event::SessionTotalMiningPowerSet(0, 50),
        ]
    );
}

#[test]
fn power_saturates() {
    let mut m = Mining::new(10);
    m.add_mining_power(&1, u128::MAX, 0);
    m.add_mining_power(&1, 1, 0);
    assert_eq!(m.session_account_mining_power(0, 1), u128::MAX);
}

#[test]
fn pool_is_fixed_once_when_a_session_ends() {
    let mut m = Mining::new(10);
    m.on_initialize(0, 5000);
    assert_eq!(m.session_total_reward(0), 0);
    m.on_initialize(7, 5000);
    assert_eq!(m.session_total_reward(0), 0);
    assert_eq!(m.on_initialize(10, 5000), Some((0, 50)));
    assert_eq!(m.session_total_reward(0), 50);
    assert_eq!(m.on_initialize(10, 9000), None);
    assert_eq!(m.session_total_reward(0), 50);
    m.on_initialize(20, 9000);
    assert_eq!(m.session_total_reward(1), 90);
}

#[test]
fn claim_pays_a_share_then_refuses() {
    let mut m = Mining::new(10);
    m.add_mining_power(&1, 30, 3);
    m.add_mining_power(&2, 10, 3);
    m.add_session_total_mining_power(40, 3);
    m.on_initialize(10, 10_000);
    assert_eq!(m.session_total_reward(0), 100);
    assert_eq!(m.claim(1, 0, 9), Err(MiningError::InvalidSession));
    assert_eq!(m.claim(1, 0, 10), Ok(75));
    assert_eq!(m.claim(1, 0, 10), Err(MiningError::NoMiningPower));
    assert_eq!(m.claim(2, 0, 15), Ok(25));
    assert_eq!(m.claim(3, 0, 15), Err(MiningError::NoMiningPower));
}

#[test]
fn claim_rounds_down() {
    let mut m = Mining::new(10);
    m.add_mining_power(&1, 1, 0);
    m.add_session_total_mining_power(3, 0);
    m.on_initialize(10, 1000);
    assert_eq!(m.pending_reward(1, 0, 10), Ok(3));
    assert_eq!(m.claim(1, 0, 10), Ok(3));
}
