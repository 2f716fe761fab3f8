use tellus::oracle::{OracleContract, ReadingType};
use tellus::policy::{PolicyContract, PolicyState};
use tellus::pool::PoolContract;
use tellus::trigger::{Error, EvaluationError, TriggerContract};

fn addr(name: &str) -> String {
    name.to_string()
}

fn s(text: &str) -> String {
    text.to_string()
}

const SIGNATURE: [u8; 64] = [0u8; 64];

struct Protocol {
    pool: PoolContract,
    oracle: OracleContract,
    policies: PolicyContract,
    trigger: TriggerContract,
}

fn protocol() -> Protocol {
    let mut pool = PoolContract::new();
    pool.initialize(addr("admin"), addr("stablecoin"), 500).unwrap();
    pool.deposit(addr("provider"), 100_000).unwrap();

    let mut oracle = OracleContract::new();
    oracle.initialize(addr("admin"), 172800).unwrap();
    oracle.add_oracle_node(addr("admin"), addr("oracle_node")).unwrap();

    let mut policies = PolicyContract::new();
    policies.initialize(addr("admin"), addr("pool")).unwrap();

    let mut trigger = TriggerContract::new();
    trigger.initialize(addr("admin"), addr("policy"), addr("oracle"), addr("pool")).unwrap();

    Protocol { pool, oracle, policies, trigger }
}

impl Protocol {
    fn register(&mut self, season_start: u64, season_end: u64, threshold: u32, baseline: u32) -> u64 {
        self.policies
            .register_policy(
                &mut self.pool,
                addr("farmer"),
                s("9q5ct"),
                s("maize"),
                season_start,
                season_end,
                10_000,
                threshold,
                baseline,
            )
            .unwrap()
    }

    fn submit(&mut self, reading_type: ReadingType, value: u32, timestamp: u64, now: u64) {
        self.oracle
            .submit_reading(addr("oracle_node"), s("9q5ct"), reading_type, value, timestamp, SIGNATURE, now)
            .unwrap();
    }

    fn evaluate(&mut self, policy_id: u64, now: u64) -> Result<(), EvaluationError> {
        self.trigger.evaluate_policy(&mut self.policies, &self.oracle, &mut self.pool, policy_id, now)
    }

    fn capital(&self) -> i128 {
        self.pool.get_pool_stats().unwrap().total_capital
    }
}

#[test]
fn test_trigger_rejects_zero_policy_id() {
    let now = 1_500_000;
    let mut trigger = TriggerContract::new();
    trigger.initialize(addr("admin"), addr("policy"), addr("oracle"), addr("pool")).unwrap();
    let mut policies = PolicyContract::new();
    let oracle = OracleContract::new();
    let mut pool = PoolContract::new();
    assert!(trigger.evaluate_policy(&mut policies, &oracle, &mut pool, 0, now).is_err());
}

#[test]
fn test_trigger_flow_drought() {
    let now = 1500000;
    let mut p = protocol();
    let policy_id = p.register(1000000, 1500000, 200, 7000);

    // Rainfall 150mm: below the 200mm threshold
    p.submit(ReadingType::Rainfall, 150, 1400000, now);
    p.submit(ReadingType::NDVI, 7500, 1400000, now);

    let capital_before = p.capital();
    p.evaluate(policy_id, now).unwrap();
    assert!(p.evaluate(policy_id, now).is_err());

    // The pool paid the farmer the full coverage
    let farmer_balance = capital_before - p.capital();
    assert_eq!(farmer_balance, 10_000);
    assert_eq!(p.trigger.get_trigger_event(policy_id).unwrap().payout_amount, 10_000);
    assert_eq!(p.trigger.get_trigger_event(policy_id).unwrap().trigger_reason, s("drought_detected"));

    let policy = p.policies.get_policy(policy_id).unwrap();
    assert_eq!(policy.state, PolicyState::Triggered);
}

#[test]
fn test_trigger_flow_ndvi_stress() {
    let now = 1500000;
    let mut p = protocol();
    let policy_id = p.register(1000000, 2000000, 200, 7000);

    // Rainfall 250mm (no drought), NDVI 4800 (below 70% of 7000 = 4900)
    p.submit(ReadingType::Rainfall, 250, 1400000, now);
    p.submit(ReadingType::NDVI, 4800, 1400000, now);

    let capital_before = p.capital();
    p.evaluate(policy_id, now).unwrap();

    // Partial payout (50%)
    let farmer_balance = capital_before - p.capital();
    assert_eq!(farmer_balance, 5_000);
    assert_eq!(p.trigger.get_trigger_event(policy_id).unwrap().payout_amount, 5_000);
    assert_eq!(p.trigger.get_trigger_event(policy_id).unwrap().trigger_reason, s("crop_stress_detected"));
}

#[test]
fn test_trigger_threshold_not_met() {
    let now = 1500000;
    let mut p = protocol();
    let policy_id = p.register(1000000, 2000000, 200, 7000);

    // Rainfall 250 (above 200), NDVI 6000 (above 4900)
    p.submit(ReadingType::Rainfall, 250, 1400000, now);
    p.submit(ReadingType::NDVI, 6000, 1400000, now);

    let result = p.evaluate(policy_id, now);
    assert!(result.is_err());

    let expired_id = p.register(1_000_000, 1_400_000, 200, 7000);
    assert!(p.evaluate(expired_id, now).is_err());
}

#[test]
fn trigger_refusals_name_their_cause_and_change_nothing() {
    let now = 1_500_000;
    let mut p = protocol();
    let active = p.register(1_000_000, 2_000_000, 200, 0);
    assert_eq!(p.evaluate(9, now), Err(EvaluationError::Policy(tellus::policy::Error::PolicyNotFound)));
    // no rainfall reading yet
    assert_eq!(
        p.evaluate(active, now),
        Err(EvaluationError::Oracle(tellus::oracle::Error::NoReadingsAvailable))
    );
    p.submit(ReadingType::Rainfall, 200, 1_400_000, now);
    // rainfall at the threshold is no drought, and no NDVI baseline is set
    assert_eq!(p.evaluate(active, now), Err(EvaluationError::Trigger(Error::ThresholdNotMet)));
    // past the season's end
    assert_eq!(p.evaluate(active, 2_000_001), Err(EvaluationError::Trigger(Error::ThresholdNotMet)));
    p.policies.update_policy_state(active, PolicyState::Expired).unwrap();
    assert_eq!(p.evaluate(active, now), Err(EvaluationError::Trigger(Error::InactivePolicy)));
    assert!(!p.trigger.is_triggered(active));
    assert_eq!(p.trigger.get_trigger_event(active).unwrap_err(), Error::NotInitialized);
    assert_eq!(p.pool.get_policy_lock(active), Ok(10_000));
}

#[test]
fn trigger_needs_ndvi_reading_when_baseline_set() {
    let now = 1_500_000;
    let mut p = protocol();
    let id = p.register(1_000_000, 2_000_000, 200, 7000);
    p.submit(ReadingType::Rainfall, 250, 1_400_000, now);
    assert_eq!(
        p.evaluate(id, now),
        Err(EvaluationError::Oracle(tellus::oracle::Error::NoReadingsAvailable))
    );
    // exactly 70% of the baseline is no stress
    p.submit(ReadingType::NDVI, 4900, 1_400_000, now);
    assert_eq!(p.evaluate(id, now), Err(EvaluationError::Trigger(Error::ThresholdNotMet)));
    p.submit(ReadingType::NDVI, 4899, 1_400_001, now);
    assert_eq!(p.evaluate(id, now), Ok(()));
}

#[test]
fn trigger_pays_each_policy_once_and_releases_its_lock() {
    let now = 1_500_000;
    let mut p = protocol();
    let id = p.register(1_000_000, 2_000_000, 200, 0);
    p.submit(ReadingType::Rainfall, 10, 1_400_000, now);
    assert_eq!(p.pool.get_pool_stats().unwrap().locked_amount, 10_000);
    p.evaluate(id, now).unwrap();
    assert!(p.trigger.is_triggered(id));
    assert_eq!(p.evaluate(id, now), Err(EvaluationError::Trigger(Error::AlreadyTriggered)));
    let event = p.trigger.get_trigger_event(id).unwrap();
    assert_eq!(event.policy_id, id);
    assert_eq!(event.triggered_at, now);
    assert_eq!(event.rainfall_value, 10);
    assert_eq!(p.pool.get_pool_stats().unwrap().locked_amount, 0);
    assert_eq!(p.pool.get_policy_lock(id).unwrap_err(), tellus::pool::Error::PolicyNotLocked);
}

#[test]
fn trigger_needs_initialization() {
    let mut trigger = TriggerContract::new();
    let mut policies = PolicyContract::new();
    let oracle = OracleContract::new();
    let mut pool = PoolContract::new();
    assert_eq!(
        trigger.evaluate_policy(&mut policies, &oracle, &mut pool, 1, 5),
        Err(EvaluationError::Trigger(Error::NotInitialized))
    );
    assert_eq!(trigger.get_config().unwrap_err(), Error::NotInitialized);
    trigger.initialize(addr("admin"), addr("policy"), addr("oracle"), addr("pool")).unwrap();
    assert_eq!(
        trigger.initialize(addr("a"), addr("b"), addr("c"), addr("d")),
        Err(Error::AlreadyInitialized)
    );
    assert_eq!(trigger.get_config().unwrap().oracle_contract, addr("oracle"));
}

#[test]
fn trigger_refused_payout_leaves_every_contract_unchanged() {
    let now = 1_500_000;
    let mut p = protocol();
    let id = p.register(1_000_000, 2_000_000, 200, 0);
    p.submit(ReadingType::Rainfall, 10, 1_400_000, now);
    // the lock is released elsewhere before the evaluation
    p.pool.release_payout(id, addr("farmer"), 1).unwrap();
    let capital = p.capital();
    assert_eq!(
        p.evaluate(id, now),
        Err(EvaluationError::Pool(tellus::pool::Error::PolicyNotLocked))
    );
    assert_eq!(p.capital(), capital);
    assert_eq!(p.policies.get_policy(id).unwrap().state, PolicyState::Active);
    assert!(!p.trigger.is_triggered(id));
}

#[test]
fn trigger_crop_stress_payout_rounds_half_coverage_down() {
    let now = 1_500_000;
    let mut p = protocol();
    let id = p
        .policies
        .register_policy(&mut p.pool, addr("farmer"), s("9q5ct"), s("maize"), 1_000_000, 2_000_000, 10_001, 200, 1000)
        .unwrap();
    p.submit(ReadingType::Rainfall, 250, 1_400_000, now);
    p.submit(ReadingType::NDVI, 0, 1_400_000, now);
    p.evaluate(id, now).unwrap();
    assert_eq!(p.trigger.get_trigger_event(id).unwrap().payout_amount, 5_000);
}

#[test]
fn trigger_half_of_a_single_unit_is_refused_by_the_pool() {
    let now = 1_500_000;
    let mut p = protocol();
    let id = p
        .policies
        .register_policy(&mut p.pool, addr("farmer"), s("9q5ct"), s("maize"), 1_000_000, 2_000_000, 1, 200, 1000)
        .unwrap();
    p.submit(ReadingType::Rainfall, 250, 1_400_000, now);
    p.submit(ReadingType::NDVI, 0, 1_400_000, now);
    // half of a coverage of 1 is 0, which the pool does not pay out
    assert_eq!(p.evaluate(id, now), Err(EvaluationError::Pool(tellus::pool::Error::InvalidAmount)));
    assert!(!p.trigger.is_triggered(id));
    assert_eq!(p.pool.get_policy_lock(id), Ok(1));
}

#[test]
fn trigger_evaluates_the_largest_vegetation_baselines() {
    let now = 1_500_000;
    let mut p = protocol();
    let id = p.register(1_000_000, 2_000_000, 200, u32::MAX);
    p.submit(ReadingType::Rainfall, 250, 1_400_000, now);
    // 70% of u32::MAX is 3_006_477_106
    p.submit(ReadingType::NDVI, 3_006_477_106, 1_400_000, now);
    assert_eq!(p.evaluate(id, now), Err(EvaluationError::Trigger(Error::ThresholdNotMet)));
    p.submit(ReadingType::NDVI, 3_006_477_105, 1_400_000, now);
    p.evaluate(id, now).unwrap();
    assert_eq!(p.trigger.get_trigger_event(id).unwrap().payout_amount, 5_000);
}
