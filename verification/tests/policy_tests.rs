use tellus::policy::{Error, PolicyContract, PolicyState, RegistrationError};
use tellus::pool::PoolContract;

fn addr(name: &str) -> String {
    name.to_string()
}

fn s(text: &str) -> String {
    text.to_string()
}

fn funded_pool() -> PoolContract {
    let mut pool = PoolContract::new();
    pool.initialize(addr("admin"), addr("stablecoin"), 500).unwrap();
    pool.deposit(addr("provider"), 100_000).unwrap();
    pool
}

fn registry() -> PolicyContract {
    let mut policies = PolicyContract::new();
    policies.initialize(addr("admin"), addr("pool")).unwrap();
    policies
}

/// A pool that accepts any lock: no collateral ratio and ample capital.
fn accepting_pool() -> PoolContract {
    let mut pool = PoolContract::new();
    pool.initialize(addr("admin"), addr("stablecoin"), 0).unwrap();
    pool.deposit(addr("provider"), 1_000_000_000).unwrap();
    pool
}

fn register_test_policy(policies: &mut PolicyContract, pool: &mut PoolContract) -> u64 {
    policies
        .register_policy(
            pool,
            addr("farmer"),
            s("9q5ct"),
            s("maize"),
            1_000_000,
            2_000_000,
            10_000,
            200,
            0,
        )
        .unwrap()
}

#[test]
fn expire_policy_rejects_active_season() {
    let now = 1_000_000;
    let mut pool = accepting_pool();
    let mut policies = registry();
    let policy_id = register_test_policy(&mut policies, &mut pool);

    let result = policies.expire_policy(policy_id, now);

    assert!(result.is_err());
    let policy = policies.get_policy(policy_id).unwrap();
    assert!(policy.state == PolicyState::Active);
}

#[test]
fn expire_policy_marks_policy_expired_after_season_end() {
    let mut pool = accepting_pool();
    let mut policies = registry();
    let policy_id = register_test_policy(&mut policies, &mut pool);
    let policy = policies.get_policy(policy_id).unwrap();

    let now = policy.season_end;
    policies.expire_policy(policy_id, now).unwrap();

    let policy = policies.get_policy(policy_id).unwrap();
    assert!(policy.state == PolicyState::Expired);
}

#[test]
fn test_policy_registration() {
    let mut pool = funded_pool();
    let mut policies = registry();

    let policy_id = policies
        .register_policy(
            &mut pool,
            addr("farmer"),
            s("9q5ct"),
            s("maize"),
            1000000,
            2000000,
            10_000,
            200,
            7000,
        )
        .unwrap();

    assert_eq!(policy_id, 1);

    let policy = policies.get_policy(policy_id).unwrap();
    assert_eq!(policy.farmer, addr("farmer"));
    assert_eq!(policy.coverage_amount, 10_000);
    assert_eq!(policy.state, PolicyState::Active);
    assert_eq!(pool.get_policy_lock(policy_id).unwrap(), 10_000);
}

#[test]
fn test_policy_rejects_zero_coverage() {
    let mut pool = PoolContract::new();
    let mut policies = registry();
    let result = policies.register_policy(&mut pool, addr("farmer"), s("9q5ct"), s("maize"), 1, 2, 0, 200, 7000);
    assert!(result.is_err());
}

#[test]
fn test_policy_rejects_negative_coverage() {
    let mut pool = PoolContract::new();
    let mut policies = registry();
    let result = policies.register_policy(&mut pool, addr("farmer"), s("9q5ct"), s("maize"), 1, 2, -1, 200, 7000);
    assert!(result.is_err());
}

#[test]
fn test_policy_rejects_reversed_season() {
    let mut pool = PoolContract::new();
    let mut policies = registry();
    let result = policies.register_policy(&mut pool, addr("farmer"), s("9q5ct"), s("maize"), 2, 1, 1, 200, 7000);
    assert!(result.is_err());
}

#[test]
fn test_policy_rejects_empty_geohash() {
    let mut pool = PoolContract::new();
    let mut policies = registry();
    let result = policies.register_policy(&mut pool, addr("farmer"), s(""), s("maize"), 1, 2, 1, 200, 7000);
    assert!(result.is_err());
}

#[test]
fn test_policy_rejects_empty_crop_type() {
    let mut pool = PoolContract::new();
    let mut policies = registry();
    let result = policies.register_policy(&mut pool, addr("farmer"), s("9q5ct"), s(""), 1, 2, 1, 200, 7000);
    assert!(result.is_err());
}

#[test]
fn test_policy_list_by_farmer() {
    let mut pool = funded_pool();
    let mut policies = registry();

    policies
        .register_policy(
            &mut pool,
            addr("farmer"),
            s("9q5ct"),
            s("maize"),
            1000000,
            2000000,
            5_000,
            200,
            7000,
        )
        .unwrap();

    let second_policy_id = policies
        .register_policy(
            &mut pool,
            addr("farmer"),
            s("9q5cu"),
            s("wheat"),
            1000000,
            2000000,
            5_000,
            180,
            6500,
        )
        .unwrap();

    assert_eq!(second_policy_id, 2);

    let ids = policies.list_policies_by_farmer(addr("farmer"));
    assert_eq!(ids.len(), 2);
}

#[test]
fn test_policy_expiration() {
    let now = 2500000;
    let mut pool = funded_pool();
    let mut policies = registry();

    let policy_id = policies
        .register_policy(
            &mut pool,
            addr("farmer"),
            s("9q5ct"),
            s("maize"),
            1000000,
            2000000,
            10_000,
            200,
            7000,
        )
        .unwrap();

    // Expire policy after season end
    policies.expire_policy(policy_id, now).unwrap();

    let policy = policies.get_policy(policy_id).unwrap();
    assert_eq!(policy.state, PolicyState::Expired);
}

#[test]
fn policy_input_errors_name_the_first_bad_term() {
    let mut pool = PoolContract::new();
    let mut policies = registry();
    let mut register = |geohash: &str, crop: &str, start: u64, end: u64, coverage: i128| {
        policies.register_policy(&mut pool, addr("farmer"), s(geohash), s(crop), start, end, coverage, 200, 0)
    };
    assert_eq!(register("", "", 2, 1, 0), Err(RegistrationError::Policy(Error::InvalidAmount)));
    assert_eq!(register("", "", 2, 2, 1), Err(RegistrationError::Policy(Error::InvalidSeason)));
    assert_eq!(register("", "", 1, 2, 1), Err(RegistrationError::Policy(Error::InvalidGeohash)));
    assert_eq!(register("g", "", 1, 2, 1), Err(RegistrationError::Policy(Error::InvalidCropType)));
    // the pool was never initialized: it refuses the lock
    assert_eq!(
        register("g", "c", 1, 2, 1),
        Err(RegistrationError::Pool(tellus::pool::Error::NotInitialized))
    );
    assert_eq!(policies.get_policy_count(), 0);
}

#[test]
fn policy_registration_needs_initialization() {
    let mut pool = funded_pool();
    let mut policies = PolicyContract::new();
    assert_eq!(
        policies.register_policy(&mut pool, addr("f"), s("g"), s("c"), 1, 2, 1, 0, 0),
        Err(RegistrationError::Policy(Error::NotInitialized))
    );
    assert_eq!(policies.get_config().unwrap_err(), Error::NotInitialized);
    assert_eq!(policies.update_policy_state(1, PolicyState::Expired), Err(Error::NotInitialized));
    assert_eq!(policies.expire_policy(1, 5), Err(Error::NotInitialized));
    policies.initialize(addr("admin"), addr("pool")).unwrap();
    assert_eq!(policies.initialize(addr("x"), addr("y")), Err(Error::AlreadyInitialized));
    let config = policies.get_config().unwrap();
    assert_eq!(config.admin, addr("admin"));
    assert_eq!(config.pool_contract, addr("pool"));
}

#[test]
fn policy_refused_lock_leaves_registry_unchanged() {
    let mut pool = funded_pool();
    let mut policies = registry();
    // 5:1 ratio on 100_000 capital cannot back 20_000 of coverage
    assert_eq!(
        policies.register_policy(&mut pool, addr("f"), s("g"), s("c"), 1, 2, 20_000, 0, 0),
        Err(RegistrationError::Pool(tellus::pool::Error::InsufficientCapital))
    );
    assert_eq!(policies.get_policy_count(), 0);
    assert_eq!(policies.get_policy(1).unwrap_err(), Error::PolicyNotFound);
    assert_eq!(pool.get_pool_stats().unwrap().locked_amount, 0);
}

#[test]
fn policy_lists_are_per_farmer_in_registration_order() {
    let mut pool = accepting_pool();
    let mut policies = registry();
    for farmer in ["a", "b", "a", "c", "a"] {
        policies.register_policy(&mut pool, addr(farmer), s("g"), s("c"), 1, 2, 10, 0, 0).unwrap();
    }
    assert_eq!(policies.list_policies_by_farmer(addr("a")), vec![1, 3, 5]);
    assert_eq!(policies.list_policies_by_farmer(addr("b")), vec![2]);
    assert_eq!(policies.list_policies_by_farmer(addr("nobody")), Vec::<u64>::new());
    assert_eq!(policies.get_policy_count(), 5);
    assert_eq!(policies.get_policy(0).unwrap_err(), Error::PolicyNotFound);
    assert_eq!(policies.get_policy(6).unwrap_err(), Error::PolicyNotFound);
    assert_eq!(policies.get_policy(4).unwrap().farmer, addr("c"));
}

#[test]
fn policy_never_returns_to_active() {
    let mut pool = accepting_pool();
    let mut policies = registry();
    let id = register_test_policy(&mut policies, &mut pool);
    assert_eq!(policies.update_policy_state(id, PolicyState::Active), Ok(()));
    assert_eq!(policies.update_policy_state(id, PolicyState::Triggered), Ok(()));
    assert_eq!(
        policies.update_policy_state(id, PolicyState::Active),
        Err(Error::InvalidStateTransition)
    );
    assert_eq!(policies.update_policy_state(id, PolicyState::Expired), Ok(()));
    assert_eq!(
        policies.update_policy_state(id, PolicyState::Active),
        Err(Error::InvalidStateTransition)
    );
    assert_eq!(policies.get_policy(id).unwrap().state, PolicyState::Expired);
    assert_eq!(policies.update_policy_state(99, PolicyState::Expired), Err(Error::PolicyNotFound));
}

#[test]
fn policy_expiry_boundary_and_terms_kept() {
    let mut pool = accepting_pool();
    let mut policies = registry();
    let id = register_test_policy(&mut policies, &mut pool);
    assert_eq!(policies.expire_policy(id, 1_999_999), Err(Error::PolicyNotExpired));
    assert_eq!(policies.expire_policy(id, 2_000_000), Ok(()));
    assert_eq!(policies.expire_policy(2, 2_000_000), Err(Error::PolicyNotFound));
    let policy = policies.get_policy(id).unwrap();
    assert_eq!(policy.state, PolicyState::Expired);
    assert_eq!(policy.farm_geohash, s("9q5ct"));
    assert_eq!(policy.crop_type, s("maize"));
    assert_eq!(policy.season_start, 1_000_000);
    assert_eq!(policy.rainfall_threshold, 200);
}
