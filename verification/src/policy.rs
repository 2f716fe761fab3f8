//! The policy registry: farmer policies, their ids and their life cycle.

use vstd::prelude::*;

use crate::pool::PoolContract;
use crate::table::Table;

verus! {

#[derive(Debug, Clone, Copy, PartialEq, Eq, Structural)]
pub enum PolicyState {
    Active,
    Triggered,
    Expired,
}

/// A farmer's parametric insurance policy.
#[derive(Debug)]
pub struct Policy {
    pub policy_id: u64,
    pub farmer: String,
    pub farm_geohash: String,
    pub crop_type: String,
    pub season_start: u64,
    pub season_end: u64,
    pub coverage_amount: i128,
    /// Rainfall below which the policy pays out in full (millimetres).
    pub rainfall_threshold: u32,
    /// Vegetation index the crop is expected to hold, scaled by 10000; 0 when unset.
    pub ndvi_baseline: u32,
    pub state: PolicyState,
}

impl Clone for Policy {
    fn clone(&self) -> (r: Self)
        ensures
            r == *self,
    {
        Policy {
            policy_id: self.policy_id,
            farmer: self.farmer.clone(),
            farm_geohash: self.farm_geohash.clone(),
            crop_type: self.crop_type.clone(),
            season_start: self.season_start,
            season_end: self.season_end,
            coverage_amount: self.coverage_amount,
            rainfall_threshold: self.rainfall_threshold,
            ndvi_baseline: self.ndvi_baseline,
            state: self.state,
        }
    }
}

/// The registry's configuration, fixed at initialization.
#[derive(Debug)]
pub struct Config {
    pub admin: String,
    pub pool_contract: String,
}

impl Clone for Config {
    fn clone(&self) -> (r: Self)
        ensures
            r == *self,
    {
        Config { admin: self.admin.clone(), pool_contract: self.pool_contract.clone() }
    }
}

#[derive(Debug, Clone, Copy, PartialEq, Eq, Structural)]
pub enum Error {
    AlreadyInitialized,
    NotInitialized,
    InvalidAmount,
    PolicyNotFound,
    PolicyNotExpired,
    InvalidSeason,
    InvalidGeohash,
    InvalidCropType,
    InvalidStateTransition,
}

/// Why a registration failed: the registry refused it, or the pool refused to lock its coverage.
#[derive(Debug, Clone, Copy, PartialEq, Eq, Structural)]
pub enum RegistrationError {
    Policy(Error),
    Pool(crate::pool::Error),
}

/// The first problem with the terms of a new policy, if any: coverage must be positive,
/// the season must end after it starts, and geohash and crop type must not be empty.
pub open spec fn input_error(
    farm_geohash: Seq<char>,
    crop_type: Seq<char>,
    season_start: u64,
    season_end: u64,
    coverage_amount: i128,
) -> Option<Error> {
    if coverage_amount <= 0 {
        Some(Error::InvalidAmount)
    } else if season_end <= season_start {
        Some(Error::InvalidSeason)
    } else if farm_geohash.len() == 0 {
        Some(Error::InvalidGeohash)
    } else if crop_type.len() == 0 {
        Some(Error::InvalidCropType)
    } else {
        None
    }
}

/// The ids of the policies of `farmer`, in registration order.
pub open spec fn policy_ids_of(policies: Seq<Policy>, farmer: Seq<char>) -> Seq<u64>
    decreases policies.len(),
{
    if policies.len() == 0 {
        Seq::empty()
    } else {
        let rest = policy_ids_of(policies.drop_last(), farmer);
        if policies.last().farmer@ == farmer {
            rest.push(policies.last().policy_id)
        } else {
            rest
        }
    }
}

proof fn lemma_policy_ids_of_push(policies: Seq<Policy>, p: Policy, farmer: Seq<char>)
    ensures
        policy_ids_of(policies.push(p), farmer) == (if p.farmer@ == farmer {
            policy_ids_of(policies, farmer).push(p.policy_id)
        } else {
            policy_ids_of(policies, farmer)
        }),
{
    assert(policies.push(p).drop_last() =~= policies);
}

proof fn lemma_policy_ids_of_update(policies: Seq<Policy>, i: int, p: Policy, farmer: Seq<char>)
    requires
        0 <= i < policies.len(),
        p.farmer == policies[i].farmer,
        p.policy_id == policies[i].policy_id,
    ensures
        policy_ids_of(policies.update(i, p), farmer) == policy_ids_of(policies, farmer),
    decreases policies.len(),
{
    if i < policies.len() - 1 {
        lemma_policy_ids_of_update(policies.drop_last(), i, p, farmer);
        assert(policies.update(i, p).drop_last() =~= policies.drop_last().update(i, p));
    } else {
        assert(policies.update(i, p).drop_last() =~= policies.drop_last());
    }
}

/// The abstract state of the registry.
#[verifier::ext_equal]
pub struct RegistryState {
    pub config: Option<Config>,
    pub next_policy_id: u64,
    /// Policies in registration order; the policy with id `i` is at position `i - 1`.
    pub policies: Seq<Policy>,
}

impl RegistryState {
    /// The policy with id `policy_id`, if it has been registered.
    pub open spec fn policy(self, policy_id: u64) -> Option<Policy> {
        if 1 <= policy_id <= self.policies.len() {
            Some(self.policies[policy_id - 1])
        } else {
            None
        }
    }

    /// The registry once `policy` is registered.
    pub open spec fn with_policy(self, policy: Policy) -> RegistryState {
        RegistryState {
            next_policy_id: (self.next_policy_id + 1) as u64,
            policies: self.policies.push(policy),
            ..self
        }
    }

    /// The registry once policy `policy_id` has moved to `state`.
    pub open spec fn with_state(self, policy_id: u64, state: PolicyState) -> RegistryState {
        RegistryState {
            policies: self.policies.update(
                policy_id - 1,
                Policy { state, ..self.policies[policy_id - 1] },
            ),
            ..self
        }
    }
}

/// A registered policy reads back unchanged under the id it was given, the other policies
/// are untouched, and its id joins the end of its farmer's list.
pub proof fn lemma_register_then_read(s: RegistryState, policy: Policy, farmer: Seq<char>)
    requires
        policy.policy_id == s.policies.len() + 1,
    ensures
        s.with_policy(policy).policy(policy.policy_id) == Some(policy),
        forall|id: u64| #![trigger s.with_policy(policy).policy(id)]
            id != policy.policy_id ==> s.with_policy(policy).policy(id) == s.policy(id),
        policy_ids_of(s.with_policy(policy).policies, farmer) == (if policy.farmer@ == farmer {
            policy_ids_of(s.policies, farmer).push(policy.policy_id)
        } else {
            policy_ids_of(s.policies, farmer)
        }),
{
    lemma_policy_ids_of_push(s.policies, policy, farmer);
}

/// The registry over a run of registrations: when each state of `states` follows the one
/// before by registering the next of `policies`, as `register_policy` does, the final
/// registry holds the first one's policies followed by `policies`, in order; from a fresh
/// registry, `n` registrations leave exactly those `n` policies.
pub proof fn lemma_registrations_append(states: Seq<RegistryState>, policies: Seq<Policy>)
    requires
        states.len() == policies.len() + 1,
        forall|i: int|
            0 <= i < policies.len() ==> states[i + 1] == states[i].with_policy(
                #[trigger] policies[i],
            ),
    ensures
        states.last().policies == states[0].policies + policies,
        states.last().policies.len() == states[0].policies.len() + policies.len(),
    decreases policies.len(),
{
    if policies.len() > 0 {
        let k = policies.len() - 1;
        lemma_registrations_append(states.drop_last(), policies.drop_last());
        assert(states[k + 1] == states[k].with_policy(policies[k]));
        assert(states.drop_last().last() == states[k]);
        assert(states[0].policies + policies =~= (states[0].policies + policies.drop_last()).push(
            policies[k],
        ));
    } else {
        assert(states[0].policies + policies =~= states[0].policies);
    }
}

/// Moving a policy to another state changes nothing else: its terms, the other policies and
/// every farmer's list stay as they were.
pub proof fn lemma_state_change_preserves(
    s: RegistryState,
    policy_id: u64,
    state: PolicyState,
    farmer: Seq<char>,
)
    requires
        s.policy(policy_id) is Some,
    ensures
        s.with_state(policy_id, state).policy(policy_id) == Some(
            Policy { state, ..s.policy(policy_id).unwrap() },
        ),
        forall|id: u64| #![trigger s.with_state(policy_id, state).policy(id)]
            id != policy_id ==> s.with_state(policy_id, state).policy(id) == s.policy(id),
        policy_ids_of(s.with_state(policy_id, state).policies, farmer) == policy_ids_of(
            s.policies,
            farmer,
        ),
{
    let i = policy_id - 1;
    lemma_policy_ids_of_update(s.policies, i, Policy { state, ..s.policies[i] }, farmer);
}

/// A registry's state as plain values, as it is kept in storage; farmers' lists follow
/// from the policies.
#[derive(Debug)]
pub struct RegistryRecord {
    pub config: Option<Config>,
    pub next_policy_id: u64,
    pub policies: Vec<Policy>,
}

impl RegistryRecord {
    /// The registry state the record describes.
    pub open spec fn state(&self) -> RegistryState {
        RegistryState {
            config: self.config,
            next_policy_id: self.next_policy_id,
            policies: self.policies@,
        }
    }

    /// Whether the record describes a registry that registrations can have produced: ids
    /// run from 1 in order, every policy has valid terms, and only a configured registry
    /// holds policies.
    pub open spec fn consistent(&self) -> bool {
        &&& self.next_policy_id == self.policies@.len() + 1
        &&& forall|i: int|
            0 <= i < self.policies@.len() ==> {
                let p = #[trigger] self.policies@[i];
                &&& p.policy_id == i + 1
                &&& input_error(
                    p.farm_geohash@,
                    p.crop_type@,
                    p.season_start,
                    p.season_end,
                    p.coverage_amount,
                ) is None
            }
        &&& self.config is None ==> self.policies@.len() == 0
    }
}

/// The policy registry.
pub struct PolicyContract {
    config: Option<Config>,
    next_policy_id: u64,
    policies: Vec<Policy>,
    farmer_policies: Table<String, Vec<u64>>,
}

impl View for PolicyContract {
    type V = RegistryState;

    closed spec fn view(&self) -> RegistryState {
        RegistryState {
            config: self.config,
            next_policy_id: self.next_policy_id,
            policies: self.policies@,
        }
    }
}

impl PolicyContract {
    /// Well-formedness: ids are assigned in order from 1, every stored policy had valid
    /// terms, and each farmer's list holds exactly the ids of that farmer's policies.
    pub closed spec fn wf(&self) -> bool {
        &&& self.farmer_policies.wf()
        &&& self.next_policy_id == self.policies.len() + 1
        &&& forall|i: int|
            0 <= i < self.policies.len() ==> {
                let p = #[trigger] self.policies@[i];
                &&& p.policy_id == i + 1
                &&& input_error(
                    p.farm_geohash@,
                    p.crop_type@,
                    p.season_start,
                    p.season_end,
                    p.coverage_amount,
                ) is None
            }
        &&& self.config is None ==> self.policies.len() == 0
        &&& forall|f: Seq<char>| #[trigger]
            self.farmer_policies@.contains_key(f) ==> self.farmer_policies@[f]@ == policy_ids_of(
                self.policies@,
                f,
            )
        &&& forall|f: Seq<char>|
            !self.farmer_policies@.contains_key(f) ==> #[trigger] policy_ids_of(self.policies@, f)
                == Seq::<u64>::empty()
    }

    /// Facts about the abstract state that well-formedness guarantees.
    pub proof fn lemma_wf(&self)
        requires
            self.wf(),
        ensures
            self@.next_policy_id == self@.policies.len() + 1,
            forall|id: u64| #[trigger] self@.policy(id) matches Some(p) ==> p.policy_id == id
                && p.coverage_amount > 0 && p.season_start < p.season_end,
            self@.policies.len() > 0 ==> self@.config is Some,
    {
    }

    /// The registry's state as plain values, for storage.
    pub fn into_record(self) -> (r: RegistryRecord)
        requires
            self.wf(),
        ensures
            r.consistent(),
            r.state() == self@,
    {
        let PolicyContract { config, next_policy_id, policies, farmer_policies: _ } = self;
        RegistryRecord { config, next_policy_id, policies }
    }

    /// Restores a registry from its record; there is none when the record is not consistent.
    pub fn from_record(record: RegistryRecord) -> (r: Option<PolicyContract>)
        ensures
            r is Some <==> record.consistent(),
            r matches Some(registry) ==> registry.wf() && registry@ == record.state(),
    {
        let ghost rec = record;
        let RegistryRecord { config, next_policy_id, policies } = record;
        if config.is_none() && policies.len() > 0 {
            return None;
        }
        if next_policy_id == 0 || next_policy_id - 1 != policies.len() as u64 {
            return None;
        }
        let mut i: usize = 0;
        while i < policies.len()
            invariant
                rec == record,
                policies@ == rec.policies@,
                i <= policies@.len(),
                forall|j: int|
                    0 <= j < i ==> {
                        let p = #[trigger] policies@[j];
                        &&& p.policy_id == j + 1
                        &&& input_error(
                            p.farm_geohash@,
                            p.crop_type@,
                            p.season_start,
                            p.season_end,
                            p.coverage_amount,
                        ) is None
                    },
            decreases policies.len() - i,
        {
            let p = &policies[i];
            if p.policy_id != (i as u64) + 1 {
                return None;
            }
            if Self::validate_policy_input(
                &p.farm_geohash,
                &p.crop_type,
                p.season_start,
                p.season_end,
                p.coverage_amount,
            ).is_err() {
                return None;
            }
            i = i + 1;
        }
        let mut registry = PolicyContract {
            config,
            next_policy_id: 1,
            policies: Vec::new(),
            farmer_policies: Table::new(),
        };
        let ghost all = policies@;
        let mut rest = policies;
        let ghost mut k: int = 0;
        while rest.len() > 0
            invariant
                all == rec.policies@,
                rec.consistent(),
                registry.wf(),
                registry@.config == rec.config,
                0 <= k <= all.len(),
                rest@ == all.skip(k),
                registry@.policies == all.take(k),
            decreases rest.len(),
        {
            proof {
                assert(all.skip(k)[0] == all[k]);
            }
            let p = rest.remove(0);
            proof {
                assert(rest@ =~= all.skip(k + 1));
                assert(all.take(k + 1) =~= all.take(k).push(p));
            }
            registry.record_policy(p);
            proof {
                k = k + 1;
            }
        }
        proof {
            assert(all.take(k) =~= all);
            assert(registry@ =~= rec.state());
        }
        Some(registry)
    }

    /// A registry that has not been initialized.
    pub fn new() -> (r: Self)
        ensures
            r.wf(),
            r@.config is None,
            r@.next_policy_id == 1,
            r@.policies == Seq::<Policy>::empty(),
    {
        PolicyContract {
            config: None,
            next_policy_id: 1,
            policies: Vec::new(),
            farmer_policies: Table::new(),
        }
    }

    fn validate_policy_input(
        farm_geohash: &String,
        crop_type: &String,
        season_start: u64,
        season_end: u64,
        coverage_amount: i128,
    ) -> (r: Result<(), Error>)
        ensures
            match input_error(farm_geohash@, crop_type@, season_start, season_end, coverage_amount) {
                Some(e) => r == Err::<(), Error>(e),
                None => r is Ok,
            },
    {
        if coverage_amount <= 0 {
            return Err(Error::InvalidAmount);
        }
        if season_end <= season_start {
            return Err(Error::InvalidSeason);
        }
        if farm_geohash.as_str().is_empty() {
            return Err(Error::InvalidGeohash);
        }
        if crop_type.as_str().is_empty() {
            return Err(Error::InvalidCropType);
        }
        Ok(())
    }

    /// Sets up the registry with its admin and the pool that backs its policies.
    pub fn initialize(&mut self, admin: String, pool_contract: String) -> (r: Result<(), Error>)
        requires
            old(self).wf(),
        ensures
            final(self).wf(),
            old(self)@.config is Some ==> r == Err::<(), Error>(Error::AlreadyInitialized)
                && final(self)@ == old(self)@,
            old(self)@.config is None ==> r is Ok && final(self)@ == (RegistryState {
                config: Some((Config { admin, pool_contract })),
                next_policy_id: 1,
                policies: Seq::empty(),
            }),
    {
        if self.config.is_some() {
            return Err(Error::AlreadyInitialized);
        }
        self.config = Some(Config { admin, pool_contract });
        self.next_policy_id = 1;
        Ok(())
    }

    /// Checks the terms of a new policy and builds it, active, under the next id.
    pub fn prepare_policy(
        &self,
        farmer: String,
        farm_geohash: String,
        crop_type: String,
        season_start: u64,
        season_end: u64,
        coverage_amount: i128,
        rainfall_threshold: u32,
        ndvi_baseline: u32,
    ) -> (r: Result<Policy, Error>)
        requires
            self.wf(),
        ensures
            input_error(farm_geohash@, crop_type@, season_start, season_end, coverage_amount)
                matches Some(e) ==> r == Err::<Policy, Error>(e),
            input_error(farm_geohash@, crop_type@, season_start, season_end, coverage_amount)
                is None && self@.config is None ==> r == Err::<Policy, Error>(
                Error::NotInitialized,
            ),
            input_error(farm_geohash@, crop_type@, season_start, season_end, coverage_amount)
                is None && self@.config is Some ==> r == Ok::<Policy, Error>(
                Policy {
                    policy_id: self@.next_policy_id,
                    farmer,
                    farm_geohash,
                    crop_type,
                    season_start,
                    season_end,
                    coverage_amount,
                    rainfall_threshold,
                    ndvi_baseline,
                    state: PolicyState::Active,
                },
            ),
    {
        Self::validate_policy_input(
            &farm_geohash,
            &crop_type,
            season_start,
            season_end,
            coverage_amount,
        )?;
        if self.config.is_none() {
            return Err(Error::NotInitialized);
        }
        Ok(
            Policy {
                policy_id: self.next_policy_id,
                farmer,
                farm_geohash,
                crop_type,
                season_start,
                season_end,
                coverage_amount,
                rainfall_threshold,
                ndvi_baseline,
                state: PolicyState::Active,
            },
        )
    }

    /// Stores a prepared policy under its id and adds it to its farmer's list.
    pub fn record_policy(&mut self, policy: Policy)
        requires
            old(self).wf(),
            old(self)@.config is Some,
            policy.policy_id == old(self)@.next_policy_id,
            old(self)@.next_policy_id < u64::MAX,
            input_error(
                policy.farm_geohash@,
                policy.crop_type@,
                policy.season_start,
                policy.season_end,
                policy.coverage_amount,
            ) is None,
        ensures
            final(self).wf(),
            final(self)@ == old(self)@.with_policy(policy),
    {
        let ghost old_self = *self;
        let policy_id = policy.policy_id;
        let farmer = policy.farmer.clone();
        let mut ids = match self.farmer_policies.remove(&farmer) {
            Some(ids) => ids,
            None => Vec::new(),
        };
        assert(ids@ == policy_ids_of(old_self.policies@, farmer@));
        ids.push(policy_id);
        self.policies.push(policy);
        self.farmer_policies.insert(&farmer, ids);
        self.next_policy_id = policy_id + 1;
        proof {
            assert forall|f: Seq<char>| #[trigger]
                self.farmer_policies@.contains_key(f) implies self.farmer_policies@[f]@
                == policy_ids_of(self.policies@, f) by {
                lemma_policy_ids_of_push(old_self.policies@, policy, f);
                if f != farmer@ {
                    assert(old_self.farmer_policies@.contains_key(f));
                }
            }
            assert forall|f: Seq<char>| !self.farmer_policies@.contains_key(f) implies #[trigger]
                policy_ids_of(self.policies@, f) == Seq::<u64>::empty() by {
                lemma_policy_ids_of_push(old_self.policies@, policy, f);
            }
            assert(self@ =~= old_self@.with_policy(policy));
        }
    }

    /// Registers a new policy for `farmer` and locks its coverage in `pool`; the
    /// registration fails, changing nothing, if the pool refuses the lock.
    pub fn register_policy(
        &mut self,
        pool: &mut PoolContract,
        farmer: String,
        farm_geohash: String,
        crop_type: String,
        season_start: u64,
        season_end: u64,
        coverage_amount: i128,
        rainfall_threshold: u32,
        ndvi_baseline: u32,
    ) -> (r: Result<u64, RegistrationError>)
        requires
            old(self).wf(),
            old(pool).wf(),
            input_error(farm_geohash@, crop_type@, season_start, season_end, coverage_amount)
                is None && old(self)@.config is Some && old(pool)@.lock_check(
                old(self)@.next_policy_id,
                coverage_amount as int,
            ) is Ok ==> old(self)@.next_policy_id < u64::MAX,
        ensures
            final(self).wf(),
            final(pool).wf(),
            r is Err ==> final(self)@ == old(self)@ && final(pool)@ == old(pool)@,
            input_error(farm_geohash@, crop_type@, season_start, season_end, coverage_amount)
                matches Some(e) ==> r == Err::<u64, RegistrationError>(RegistrationError::Policy(e)),
            input_error(farm_geohash@, crop_type@, season_start, season_end, coverage_amount)
                is None && old(self)@.config is None ==> r == Err::<u64, RegistrationError>(
                RegistrationError::Policy(Error::NotInitialized),
            ),
            input_error(farm_geohash@, crop_type@, season_start, season_end, coverage_amount)
                is None && old(self)@.config is Some ==> ({
                let id = old(self)@.next_policy_id;
                &&& old(pool)@.lock_check(id, coverage_amount as int) matches Err(e) ==> r == Err::<
                    u64,
                    RegistrationError,
                >(RegistrationError::Pool(e))
                &&& old(pool)@.lock_check(id, coverage_amount as int) is Ok ==> {
                    &&& r == Ok::<u64, RegistrationError>(id)
                    &&& final(pool)@ == old(pool)@.with_lock(id, coverage_amount)
                    &&& final(self)@ == old(self)@.with_policy(
                        Policy {
                            policy_id: id,
                            farmer,
                            farm_geohash,
                            crop_type,
                            season_start,
                            season_end,
                            coverage_amount,
                            rainfall_threshold,
                            ndvi_baseline,
                            state: PolicyState::Active,
                        },
                    )
                }
            }),
    {
        let policy = match self.prepare_policy(
            farmer,
            farm_geohash,
            crop_type,
            season_start,
            season_end,
            coverage_amount,
            rainfall_threshold,
            ndvi_baseline,
        ) {
            Ok(p) => p,
            Err(e) => return Err(RegistrationError::Policy(e)),
        };
        match pool.lock_coverage(policy.policy_id, policy.coverage_amount) {
            Ok(()) => {},
            Err(e) => return Err(RegistrationError::Pool(e)),
        }
        let policy_id = policy.policy_id;
        self.record_policy(policy);
        Ok(policy_id)
    }

    /// The policy with id `policy_id`.
    pub fn get_policy(&self, policy_id: u64) -> (r: Result<Policy, Error>)
        requires
            self.wf(),
        ensures
            match self@.policy(policy_id) {
                Some(p) => r == Ok::<Policy, Error>(p),
                None => r == Err::<Policy, Error>(Error::PolicyNotFound),
            },
    {
        if policy_id == 0 || policy_id > self.policies.len() as u64 {
            return Err(Error::PolicyNotFound);
        }
        Ok(self.policies[(policy_id - 1) as usize].clone())
    }

    /// The ids of `farmer`'s policies, in registration order.
    pub fn list_policies_by_farmer(&self, farmer: String) -> (r: Vec<u64>)
        requires
            self.wf(),
        ensures
            r@ == policy_ids_of(self@.policies, farmer@),
    {
        match self.farmer_policies.get(&farmer) {
            Some(ids) => ids.clone(),
            None => Vec::new(),
        }
    }

    /// The number of policies registered so far.
    pub fn get_policy_count(&self) -> (r: u64)
        requires
            self.wf(),
        ensures
            r == self@.policies.len(),
    {
        self.next_policy_id.saturating_sub(1)
    }

    /// The registry's configuration.
    pub fn get_config(&self) -> (r: Result<Config, Error>)
        ensures
            match self@.config {
                Some(c) => r == Ok::<Config, Error>(c),
                None => r == Err::<Config, Error>(Error::NotInitialized),
            },
    {
        match &self.config {
            Some(c) => Ok(c.clone()),
            None => Err(Error::NotInitialized),
        }
    }

    fn set_state(&mut self, policy_id: u64, new_state: PolicyState)
        requires
            old(self).wf(),
            old(self)@.policy(policy_id) is Some,
        ensures
            final(self).wf(),
            final(self)@ == old(self)@.with_state(policy_id, new_state),
    {
        let ghost old_self = *self;
        let i = (policy_id - 1) as usize;
        let mut policy = self.policies[i].clone();
        policy.state = new_state;
        self.policies.set(i, policy);
        proof {
            assert forall|f: Seq<char>| #[trigger]
                policy_ids_of(self.policies@, f) == policy_ids_of(old_self.policies@, f) by {
                lemma_policy_ids_of_update(old_self.policies@, i as int, policy, f);
            }
            assert(self@ =~= old_self@.with_state(policy_id, new_state));
        }
    }

    /// Moves a policy to `new_state`; a policy that has left the active state cannot
    /// become active again.
    pub fn update_policy_state(&mut self, policy_id: u64, new_state: PolicyState) -> (r: Result<
        (),
        Error,
    >)
        requires
            old(self).wf(),
        ensures
            final(self).wf(),
            r is Err ==> final(self)@ == old(self)@,
            old(self)@.config is None ==> r == Err::<(), Error>(Error::NotInitialized),
            old(self)@.config is Some && old(self)@.policy(policy_id) is None ==> r == Err::<
                (),
                Error,
            >(Error::PolicyNotFound),
            old(self)@.policy(policy_id) matches Some(p) && old(self)@.config is Some && (p.state
                != PolicyState::Active && new_state == PolicyState::Active) ==> r == Err::<
                (),
                Error,
            >(Error::InvalidStateTransition),
            old(self)@.policy(policy_id) matches Some(p) && old(self)@.config is Some && !(p.state
                != PolicyState::Active && new_state == PolicyState::Active) ==> r is Ok
                && final(self)@ == old(self)@.with_state(policy_id, new_state),
    {
        if self.config.is_none() {
            return Err(Error::NotInitialized);
        }
        let policy = self.get_policy(policy_id)?;
        if (policy.state == PolicyState::Expired || policy.state == PolicyState::Triggered)
            && new_state == PolicyState::Active {
            return Err(Error::InvalidStateTransition);
        }
        self.set_state(policy_id, new_state);
        Ok(())
    }

    /// Marks a policy expired once `current_time` has reached the end of its season.
    pub fn expire_policy(&mut self, policy_id: u64, current_time: u64) -> (r: Result<(), Error>)
        requires
            old(self).wf(),
        ensures
            final(self).wf(),
            r is Err ==> final(self)@ == old(self)@,
            old(self)@.config is None ==> r == Err::<(), Error>(Error::NotInitialized),
            old(self)@.config is Some && old(self)@.policy(policy_id) is None ==> r == Err::<
                (),
                Error,
            >(Error::PolicyNotFound),
            old(self)@.policy(policy_id) matches Some(p) && old(self)@.config is Some
                && current_time < p.season_end ==> r == Err::<(), Error>(Error::PolicyNotExpired),
            old(self)@.policy(policy_id) matches Some(p) && old(self)@.config is Some
                && current_time >= p.season_end ==> r is Ok && final(self)@ == old(self)@.with_state(policy_id, PolicyState::Expired),
    {
        if self.config.is_none() {
            return Err(Error::NotInitialized);
        }
        let policy = self.get_policy(policy_id)?;
        if current_time < policy.season_end {
            return Err(Error::PolicyNotExpired);
        }
        self.set_state(policy_id, PolicyState::Expired);
        Ok(())
    }
}

} // verus!
