use tellus::oracle::{OracleContract, ReadingType};
use tellus::policy::{PolicyContract, PolicyState};
use tellus::pool::PoolContract;
use tellus::trigger::TriggerContract;

fn addr(name: &str) -> String {
    name.to_string()
}

const SIGNATURE: [u8; 64] = [0u8; 64];

#[test]
fn test_happy_path_drought_payout() {
    let now = 1500000;

    // 1. Setup pool
    let mut pool = PoolContract::new();
    pool.initialize(addr("admin"), addr("stablecoin"), 500).unwrap();

    // Provider deposits capital
    let shares = pool.deposit(addr("provider"), 100_000).unwrap();
    assert_eq!(shares, 100_000);

    // 2. Setup oracle
    let mut oracle = OracleContract::new();
    oracle.initialize(addr("admin"), 172800).unwrap();
    oracle.add_oracle_node(addr("admin"), addr("oracle_node")).unwrap();

    // 3. Setup policy contract
    let mut policies = PolicyContract::new();
    policies.initialize(addr("admin"), addr("pool")).unwrap();

    // 4. Farmer registers policy
    let geo_cell = "9q5ct".to_string();
    let policy_id = policies
        .register_policy(
            &mut pool,
            addr("farmer"),
            geo_cell.clone(),
            "maize".to_string(),
            1000000,
            2000000,
            10_000,
            200,
            7000,
        )
        .unwrap();

    assert_eq!(policy_id, 1);

    // Verify pool locked coverage
    let stats = pool.get_pool_stats().unwrap();
    assert_eq!(stats.locked_amount, 10_000);

    // 5. Oracle nodes submit readings showing drought
    oracle
        .submit_reading(addr("oracle_node"), geo_cell.clone(), ReadingType::Rainfall, 150, 1400000, SIGNATURE, now)
        .unwrap();
    oracle
        .submit_reading(addr("oracle_node"), geo_cell.clone(), ReadingType::NDVI, 7500, 1400000, SIGNATURE, now)
        .unwrap();

    // 6. Setup trigger contract
    let mut trigger = TriggerContract::new();
    trigger.initialize(addr("admin"), addr("policy"), addr("oracle"), addr("pool")).unwrap();

    // 7. Evaluate policy and trigger payout
    let capital_before = pool.get_pool_stats().unwrap().total_capital;
    trigger.evaluate_policy(&mut policies, &oracle, &mut pool, policy_id, now).unwrap();

    // 8. Verify payout received
    let farmer_balance = capital_before - pool.get_pool_stats().unwrap().total_capital;
    assert_eq!(farmer_balance, 10_000);

    // Verify policy state updated
    let policy = policies.get_policy(policy_id).unwrap();
    assert_eq!(policy.state, PolicyState::Triggered);

    // Verify pool state updated
    let final_stats = pool.get_pool_stats().unwrap();
    assert_eq!(final_stats.total_capital, 90_000);
    assert_eq!(final_stats.locked_amount, 0);

    // Verify trigger event recorded
    let trigger_event = trigger.get_trigger_event(policy_id).unwrap();
    assert_eq!(trigger_event.payout_amount, 10_000);
    assert_eq!(trigger_event.rainfall_value, 150);
}

#[test]
fn test_expired_policy_no_payout() {
    let now = 2500000; // After season end

    let mut pool = PoolContract::new();
    pool.initialize(addr("admin"), addr("stablecoin"), 500).unwrap();
    pool.deposit(addr("provider"), 100_000).unwrap();

    let mut oracle = OracleContract::new();
    oracle.initialize(addr("admin"), 172800).unwrap();
    oracle.add_oracle_node(addr("admin"), addr("oracle_node")).unwrap();

    let mut policies = PolicyContract::new();
    policies.initialize(addr("admin"), addr("pool")).unwrap();

    let geo_cell = "9q5ct".to_string();
    let policy_id = policies
        .register_policy(
            &mut pool,
            addr("farmer"),
            geo_cell.clone(),
            "maize".to_string(),
            1000000,
            2000000,
            10_000,
            200,
            7000,
        )
        .unwrap();

    oracle
        .submit_reading(addr("oracle_node"), geo_cell.clone(), ReadingType::Rainfall, 150, 2400000, SIGNATURE, now)
        .unwrap();
    oracle
        .submit_reading(addr("oracle_node"), geo_cell.clone(), ReadingType::NDVI, 7500, 2400000, SIGNATURE, now)
        .unwrap();

    let mut trigger = TriggerContract::new();
    trigger.initialize(addr("admin"), addr("policy"), addr("oracle"), addr("pool")).unwrap();

    // Try to evaluate after season end
    let result = trigger.evaluate_policy(&mut policies, &oracle, &mut pool, policy_id, now);
    assert!(result.is_err()); // Should fail - season ended
}

#[test]
fn provider_bears_the_payout_and_withdraws_the_rest() {
    let now = 1_500_000;
    let mut pool = PoolContract::new();
    pool.initialize(addr("admin"), addr("stablecoin"), 100).unwrap();
    pool.deposit(addr("provider"), 40_000).unwrap();
    let mut oracle = OracleContract::new();
    oracle.initialize(addr("admin"), 172800).unwrap();
    let mut policies = PolicyContract::new();
    policies.initialize(addr("admin"), addr("pool")).unwrap();
    let mut trigger = TriggerContract::new();
    trigger.initialize(addr("admin"), addr("policy"), addr("oracle"), addr("pool")).unwrap();

    let id = policies
        .register_policy(&mut pool, addr("farmer"), "g".to_string(), "rice".to_string(), 1, 2_000_000, 20_000, 100, 0)
        .unwrap();
    // with 20_000 of 40_000 locked, only 20_000 can be withdrawn
    assert_eq!(pool.withdraw(addr("provider"), 30_000), Err(tellus::pool::Error::InsufficientCapital));
    oracle.submit_reading(addr("admin"), "g".to_string(), ReadingType::Rainfall, 99, now, SIGNATURE, now).unwrap();
    trigger.evaluate_policy(&mut policies, &oracle, &mut pool, id, now).unwrap();
    // the provider's 40_000 shares now back 20_000 of capital
    assert_eq!(pool.get_provider_value(addr("provider")), 20_000);
    assert_eq!(pool.withdraw(addr("provider"), 40_000), Ok(20_000));
}
