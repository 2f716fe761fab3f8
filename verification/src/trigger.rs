//! Trigger evaluation: a policy pays out when its farm's readings show drought or crop stress.

use vstd::prelude::*;

use crate::oracle::{OracleContract, OracleState};
use crate::policy::{PolicyContract, RegistryState};
use crate::pool::PoolContract;
use crate::table::{keys_distinct, lemma_pairs_map_dom, lemma_pairs_map_lookup, pairs_map, Table};

pub use crate::oracle::{LatestReading, ReadingType};
pub use crate::policy::{Policy, PolicyState};

verus! {

/// The record of a policy that has paid out.
#[derive(Debug)]
pub struct TriggerEvent {
    pub policy_id: u64,
    pub triggered_at: u64,
    pub rainfall_value: u32,
    pub payout_amount: i128,
    pub trigger_reason: String,
}

impl Clone for TriggerEvent {
    fn clone(&self) -> (r: Self)
        ensures
            r == *self,
    {
        TriggerEvent {
            policy_id: self.policy_id,
            triggered_at: self.triggered_at,
            rainfall_value: self.rainfall_value,
            payout_amount: self.payout_amount,
            trigger_reason: self.trigger_reason.clone(),
        }
    }
}

/// The contracts the trigger works with, fixed at initialization.
#[derive(Debug)]
pub struct Config {
    pub admin: String,
    pub policy_contract: String,
    pub oracle_contract: String,
    pub pool_contract: String,
}

impl Clone for Config {
    fn clone(&self) -> (r: Self)
        ensures
            r == *self,
    {
        Config {
            admin: self.admin.clone(),
            policy_contract: self.policy_contract.clone(),
            oracle_contract: self.oracle_contract.clone(),
            pool_contract: self.pool_contract.clone(),
        }
    }
}

#[derive(Debug, Clone, Copy, PartialEq, Eq, Structural)]
pub enum Error {
    AlreadyInitialized,
    NotInitialized,
    AlreadyTriggered,
    ThresholdNotMet,
    InvalidPolicyId,
    InactivePolicy,
}

/// Why an evaluation failed: the trigger's own checks, or a refusal by the
/// registry, the oracle or the pool that it consulted.
#[derive(Debug, Clone, Copy, PartialEq, Eq, Structural)]
pub enum EvaluationError {
    Trigger(Error),
    Policy(crate::policy::Error),
    Oracle(crate::oracle::Error),
    Pool(crate::pool::Error),
}

/// What an evaluation found.
#[derive(Debug, Clone, Copy, PartialEq, Eq, Structural)]
pub enum Finding {
    /// Rainfall below the policy's threshold.
    Drought,
    /// Vegetation index below 70% of the policy's baseline.
    CropStress,
}

/// One step of an evaluation: pay an amount for a finding, look at the vegetation index
/// next, or pay nothing.
#[derive(Debug, Clone, Copy, PartialEq, Eq, Structural)]
pub enum Assessment {
    Pay(i128, Finding),
    CheckVegetation,
    NoPayout,
}

/// What an evaluation does next: fetch the policy, fetch one of the farm's latest readings,
/// pay an amount for a finding, or end with a refusal.
#[derive(Debug, Clone, Copy, PartialEq, Eq, Structural)]
pub enum EvaluationStep {
    FetchPolicy,
    FetchReading(ReadingType),
    Pay(i128, Finding),
    Refuse(Error),
}

/// The reason recorded for a finding.
pub open spec fn finding_reason(finding: Finding) -> Seq<char> {
    match finding {
        Finding::Drought => drought_reason(),
        Finding::CropStress => crop_stress_reason(),
    }
}

/// The reason recorded for a full payout on low rainfall.
pub open spec fn drought_reason() -> Seq<char> {
    "drought_detected"@
}

/// The reason recorded for a partial payout on a low vegetation index.
pub open spec fn crop_stress_reason() -> Seq<char> {
    "crop_stress_detected"@
}

/// The vegetation index below which a crop counts as stressed: 70% of its baseline.
pub open spec fn stress_threshold(ndvi_baseline: u32) -> int {
    ndvi_baseline * 7 / 10
}

/// Half a coverage amount, rounded toward zero.
pub open spec fn half_coverage(coverage_amount: i128) -> int {
    if coverage_amount >= 0 {
        coverage_amount / 2
    } else {
        -((-coverage_amount) / 2)
    }
}

/// The abstract state of a trigger.
#[verifier::ext_equal]
pub struct TriggerState {
    pub config: Option<Config>,
    /// Policy id to the event recorded when it paid out.
    pub events: Map<u64, TriggerEvent>,
}

/// What evaluating policy `policy_id` at time `now` comes to before the pool is asked to
/// pay: the payout and what was found, or the refusal.
/// A policy pays its full coverage when rainfall is below its threshold; otherwise, when it
/// has a vegetation baseline, half its coverage when the vegetation index is below 70% of it.
pub open spec fn assessment(
    trigger: TriggerState,
    registry: RegistryState,
    oracle: OracleState,
    policy_id: u64,
    now: u64,
) -> Result<(int, Finding), EvaluationError> {
    if policy_id == 0 {
        Err(EvaluationError::Trigger(Error::InvalidPolicyId))
    } else if trigger.config is None {
        Err(EvaluationError::Trigger(Error::NotInitialized))
    } else if trigger.events.contains_key(policy_id) {
        Err(EvaluationError::Trigger(Error::AlreadyTriggered))
    } else {
        match registry.policy(policy_id) {
            None => Err(EvaluationError::Policy(crate::policy::Error::PolicyNotFound)),
            Some(p) => if p.state != PolicyState::Active {
                Err(EvaluationError::Trigger(Error::InactivePolicy))
            } else if now > p.season_end {
                Err(EvaluationError::Trigger(Error::ThresholdNotMet))
            } else {
                match oracle.latest(p.farm_geohash@, ReadingType::Rainfall) {
                    None => Err(EvaluationError::Oracle(crate::oracle::Error::NoReadingsAvailable)),
                    Some(rain) => if rain.value < p.rainfall_threshold {
                        Ok((p.coverage_amount as int, Finding::Drought))
                    } else if p.ndvi_baseline == 0 {
                        Err(EvaluationError::Trigger(Error::ThresholdNotMet))
                    } else {
                        match oracle.latest(p.farm_geohash@, ReadingType::NDVI) {
                            None => Err(
                                EvaluationError::Oracle(crate::oracle::Error::NoReadingsAvailable),
                            ),
                            Some(ndvi) => if ndvi.value < stress_threshold(p.ndvi_baseline) {
                                Ok((half_coverage(p.coverage_amount), Finding::CropStress))
                            } else {
                                Err(EvaluationError::Trigger(Error::ThresholdNotMet))
                            },
                        }
                    },
                }
            },
        }
    }
}

/// The next step of evaluating `policy_id` at `now` for a trigger in state `trigger`, given
/// what the evaluation has learnt so far: the policy, and the values of its farm's latest
/// rainfall and vegetation readings.
pub open spec fn evaluation_step(
    trigger: TriggerState,
    policy_id: u64,
    now: u64,
    policy: Option<Policy>,
    rainfall: Option<u32>,
    ndvi: Option<u32>,
) -> EvaluationStep {
    if policy_id == 0 {
        EvaluationStep::Refuse(Error::InvalidPolicyId)
    } else if trigger.config is None {
        EvaluationStep::Refuse(Error::NotInitialized)
    } else if trigger.events.contains_key(policy_id) {
        EvaluationStep::Refuse(Error::AlreadyTriggered)
    } else {
        match policy {
            None => EvaluationStep::FetchPolicy,
            Some(p) => if p.state != PolicyState::Active {
                EvaluationStep::Refuse(Error::InactivePolicy)
            } else if now > p.season_end {
                EvaluationStep::Refuse(Error::ThresholdNotMet)
            } else {
                match rainfall {
                    None => EvaluationStep::FetchReading(ReadingType::Rainfall),
                    Some(rain) => if rain < p.rainfall_threshold {
                        EvaluationStep::Pay(p.coverage_amount, Finding::Drought)
                    } else if p.ndvi_baseline == 0 {
                        EvaluationStep::Refuse(Error::ThresholdNotMet)
                    } else {
                        match ndvi {
                            None => EvaluationStep::FetchReading(ReadingType::NDVI),
                            Some(v) => if v < stress_threshold(p.ndvi_baseline) {
                                EvaluationStep::Pay(
                                    half_coverage(p.coverage_amount) as i128,
                                    Finding::CropStress,
                                )
                            } else {
                                EvaluationStep::Refuse(Error::ThresholdNotMet)
                            },
                        }
                    },
                }
            },
        }
    }
}

/// The value of the latest reading of a type for the farm of `policy`, if there is one.
pub open spec fn reading_value(oracle: OracleState, policy: Option<Policy>, reading_type: ReadingType) -> Option<u32> {
    match policy {
        Some(p) => match oracle.latest(p.farm_geohash@, reading_type) {
            Some(l) => Some(l.value),
            None => None,
        },
        None => None,
    }
}

/// Taking an evaluation step by step, with the registry's policy and the oracle's latest
/// readings as answers, comes to what a whole evaluation comes to: the same payout for the
/// same finding, or the same refusal by the trigger; where the whole evaluation is refused
/// by the registry or the oracle, the steps ask for the missing policy or reading.
pub proof fn lemma_steps_follow_assessment(
    trigger: TriggerState,
    registry: RegistryState,
    oracle: OracleState,
    policy_id: u64,
    now: u64,
)
    ensures
        ({
            let p = registry.policy(policy_id);
            let step = evaluation_step(
                trigger,
                policy_id,
                now,
                p,
                reading_value(oracle, p, ReadingType::Rainfall),
                reading_value(oracle, p, ReadingType::NDVI),
            );
            match assessment(trigger, registry, oracle, policy_id, now) {
                Ok((payout, finding)) => step == EvaluationStep::Pay(payout as i128, finding),
                Err(EvaluationError::Trigger(e)) => step == EvaluationStep::Refuse(e),
                Err(EvaluationError::Policy(_)) => step == EvaluationStep::FetchPolicy,
                Err(EvaluationError::Oracle(_)) => step is FetchReading,
                Err(EvaluationError::Pool(_)) => false,
            }
        }),
{
}

/// The payout rule of an evaluation, stated on the registry's policy and the oracle's latest
/// readings. For an untriggered policy of a configured trigger: an inactive policy, or one
/// evaluated after its season, is refused; otherwise rainfall below the policy's threshold
/// pays the full coverage for drought, whatever the vegetation index; else, with a
/// vegetation baseline, an index below 70% of it (rounded down) pays half the coverage
/// (rounded down) for crop stress, and anything else is refused as below no threshold.
pub proof fn lemma_payout_rule(
    trigger: TriggerState,
    registry: &PolicyContract,
    oracle: OracleState,
    policy_id: u64,
    now: u64,
)
    requires
        registry.wf(),
        policy_id != 0,
        trigger.config is Some,
        !trigger.events.contains_key(policy_id),
        registry@.policy(policy_id) is Some,
    ensures
        ({
            let p = registry@.policy(policy_id)->Some_0;
            let result = assessment(trigger, registry@, oracle, policy_id, now);
            let rain = oracle.latest(p.farm_geohash@, ReadingType::Rainfall);
            let veg = oracle.latest(p.farm_geohash@, ReadingType::NDVI);
            let open = p.state == PolicyState::Active && now <= p.season_end;
            let refused = |e: Error| Err::<(int, Finding), EvaluationError>(EvaluationError::Trigger(e));
            let paid = |amount: int, finding: Finding| Ok::<(int, Finding), EvaluationError>((amount, finding));
            &&& p.state != PolicyState::Active ==> result == refused(Error::InactivePolicy)
            &&& p.state == PolicyState::Active && now > p.season_end ==> result == refused(
                Error::ThresholdNotMet,
            )
            &&& rain matches Some(r) ==> (open && r.value < p.rainfall_threshold ==> result
                == paid(p.coverage_amount as int, Finding::Drought))
            &&& rain matches Some(r) ==> (open && r.value >= p.rainfall_threshold && p.ndvi_baseline
                == 0 ==> result == refused(Error::ThresholdNotMet))
            &&& (rain, veg) matches (Some(r), Some(v)) ==> (open && r.value >= p.rainfall_threshold
                && p.ndvi_baseline > 0 && v.value < p.ndvi_baseline * 7 / 10 ==> result == paid(
                p.coverage_amount / 2,
                Finding::CropStress,
            ))
            &&& (rain, veg) matches (Some(r), Some(v)) ==> (open && r.value >= p.rainfall_threshold
                && p.ndvi_baseline > 0 && v.value >= p.ndvi_baseline * 7 / 10 ==> result
                == refused(Error::ThresholdNotMet))
        }),
{
    registry.lemma_wf();
}

/// The same payout rule for an evaluation taken step by step: once the policy and its
/// rainfall are known, rainfall below the threshold pays the full coverage for drought
/// whatever the vegetation index; else, with a baseline, the vegetation index is asked for
/// and one below 70% of the baseline pays half the coverage for crop stress.
pub proof fn lemma_step_payout_rule(
    trigger: TriggerState,
    registry: &PolicyContract,
    policy_id: u64,
    now: u64,
    rainfall: u32,
    ndvi: Option<u32>,
)
    requires
        registry.wf(),
        policy_id != 0,
        trigger.config is Some,
        !trigger.events.contains_key(policy_id),
        registry@.policy(policy_id) is Some,
        registry@.policy(policy_id)->Some_0.state == PolicyState::Active,
        now <= registry@.policy(policy_id)->Some_0.season_end,
    ensures
        ({
            let p = registry@.policy(policy_id)->Some_0;
            let step = evaluation_step(trigger, policy_id, now, Some(p), Some(rainfall), ndvi);
            &&& rainfall < p.rainfall_threshold ==> step == EvaluationStep::Pay(
                p.coverage_amount,
                Finding::Drought,
            )
            &&& rainfall >= p.rainfall_threshold && p.ndvi_baseline == 0 ==> step
                == EvaluationStep::Refuse(Error::ThresholdNotMet)
            &&& rainfall >= p.rainfall_threshold && p.ndvi_baseline > 0 && ndvi is None ==> step
                == EvaluationStep::FetchReading(ReadingType::NDVI)
            &&& ndvi matches Some(v) ==> (rainfall >= p.rainfall_threshold && p.ndvi_baseline > 0
                && v < p.ndvi_baseline * 7 / 10 ==> step == EvaluationStep::Pay(
                (p.coverage_amount / 2) as i128,
                Finding::CropStress,
            ))
            &&& ndvi matches Some(v) ==> (rainfall >= p.rainfall_threshold && p.ndvi_baseline > 0
                && v >= p.ndvi_baseline * 7 / 10 ==> step == EvaluationStep::Refuse(
                Error::ThresholdNotMet,
            ))
        }),
{
    registry.lemma_wf();
}

/// Every event recorded in `before` is still recorded, unchanged, in `after`.
pub open spec fn events_kept(before: Map<u64, TriggerEvent>, after: Map<u64, TriggerEvent>) -> bool {
    forall|id: u64| #[trigger]
        before.contains_key(id) ==> after.contains_key(id) && after[id] == before[id]
}

/// A recorded trigger event stays in every later state: each operation that changes a
/// trigger keeps its events (see their contracts), and keeping events carries over any
/// number of operations.
pub proof fn lemma_events_persist(
    a: Map<u64, TriggerEvent>,
    b: Map<u64, TriggerEvent>,
    c: Map<u64, TriggerEvent>,
)
    requires
        events_kept(a, b),
        events_kept(b, c),
    ensures
        events_kept(a, c),
{
}

/// A policy pays out at most once: once its event is recorded, evaluating it again is
/// refused as already triggered.
pub proof fn lemma_single_payout(
    trigger: TriggerState,
    registry: RegistryState,
    oracle: OracleState,
    policy_id: u64,
    now: u64,
)
    requires
        policy_id != 0,
        trigger.config is Some,
        trigger.events.contains_key(policy_id),
    ensures
        assessment(trigger, registry, oracle, policy_id, now) == Err::<(int, Finding), EvaluationError>(
            EvaluationError::Trigger(Error::AlreadyTriggered),
        ),
{
}

/// What an evaluation pays is the policy's full coverage on drought and half of it, rounded
/// down, on crop stress: never negative and never more than the coverage.
pub proof fn lemma_payout_within_coverage(
    trigger: TriggerState,
    registry: &PolicyContract,
    oracle: OracleState,
    policy_id: u64,
    now: u64,
)
    requires
        registry.wf(),
        assessment(trigger, registry@, oracle, policy_id, now) is Ok,
    ensures
        ({
            let (payout, finding) = assessment(trigger, registry@, oracle, policy_id, now)->Ok_0;
            let coverage = registry@.policy(policy_id)->Some_0.coverage_amount;
            &&& finding == Finding::Drought ==> payout == coverage
            &&& finding == Finding::CropStress ==> payout == coverage / 2
            &&& 0 <= payout <= coverage
        }),
{
    registry.lemma_wf();
}

/// Recorded events as table entries, keyed by their policy id.
pub open spec fn event_pairs(events: Seq<TriggerEvent>) -> Seq<(u64, TriggerEvent)> {
    events.map_values(|e: TriggerEvent| (e.policy_id, e))
}

/// A trigger's state as plain values, as it is kept in storage.
#[derive(Debug)]
pub struct TriggerRecord {
    pub config: Option<Config>,
    pub events: Vec<TriggerEvent>,
}

impl TriggerRecord {
    /// The trigger state the record describes.
    pub open spec fn state(&self) -> TriggerState {
        TriggerState { config: self.config, events: pairs_map(event_pairs(self.events@)) }
    }

    /// Whether the record describes a trigger that evaluations can have produced: no policy
    /// has two events, and an unconfigured trigger has none.
    pub open spec fn consistent(&self) -> bool {
        &&& keys_distinct(event_pairs(self.events@))
        &&& self.config is None ==> self.events@.len() == 0
    }
}

/// The trigger contract.
pub struct TriggerContract {
    config: Option<Config>,
    events: Table<u64, TriggerEvent>,
}

impl View for TriggerContract {
    type V = TriggerState;

    closed spec fn view(&self) -> TriggerState {
        TriggerState { config: self.config, events: self.events@ }
    }
}

impl TriggerContract {
    /// Well-formedness: events are recorded under their policy id, and only once configured.
    pub closed spec fn wf(&self) -> bool {
        &&& self.events.wf()
        &&& self.config is None ==> self.events@.dom().is_empty()
        &&& forall|id: u64| #[trigger]
            self.events@.contains_key(id) ==> self.events@[id].policy_id == id
    }

    /// The trigger's state as plain values, for storage.
    pub fn into_record(self) -> (r: TriggerRecord)
        requires
            self.wf(),
        ensures
            r.consistent(),
            r.state() == self@,
    {
        let ghost old_self = self;
        let TriggerContract { config, events } = self;
        let pairs = events.into_pairs();
        let ghost ps = pairs@;
        let mut rest = pairs;
        let mut list: Vec<TriggerEvent> = Vec::new();
        let ghost mut k: int = 0;
        while rest.len() > 0
            invariant
                0 <= k <= ps.len(),
                rest@ == ps.skip(k),
                list@.len() == k,
                forall|j: int| 0 <= j < k ==> #[trigger] list@[j] == ps[j].1,
            decreases rest.len(),
        {
            proof {
                assert(ps.skip(k)[0] == ps[k]);
            }
            let (_, event) = rest.remove(0);
            proof {
                assert(rest@ =~= ps.skip(k + 1));
            }
            list.push(event);
            proof {
                k = k + 1;
            }
        }
        let r = TriggerRecord { config, events: list };
        proof {
            assert forall|j: int| 0 <= j < ps.len() implies #[trigger] event_pairs(r.events@)[j]
                == ps[j] by {
                lemma_pairs_map_lookup(ps, j);
            }
            assert(event_pairs(r.events@) =~= ps);
            if r.config is None && r.events@.len() > 0 {
                lemma_pairs_map_lookup(ps, 0);
                assert(old_self.events@.dom().contains(ps[0].0));
            }
            assert(r.state() =~= old_self@);
        }
        r
    }

    /// Restores a trigger from its record; there is none when the record is not consistent.
    pub fn from_record(record: TriggerRecord) -> (r: Option<TriggerContract>)
        ensures
            r is Some <==> record.consistent(),
            r matches Some(trigger) ==> trigger.wf() && trigger@ == record.state(),
    {
        let ghost rec = record;
        let TriggerRecord { config, events } = record;
        if config.is_none() && events.len() > 0 {
            return None;
        }
        let ghost all = events@;
        let mut rest = events;
        let mut pairs: Vec<(u64, TriggerEvent)> = Vec::new();
        let ghost mut k: int = 0;
        while rest.len() > 0
            invariant
                0 <= k <= all.len(),
                rest@ == all.skip(k),
                pairs@ == event_pairs(all.take(k)),
            decreases rest.len(),
        {
            proof {
                assert(all.skip(k)[0] == all[k]);
            }
            let event = rest.remove(0);
            proof {
                assert(rest@ =~= all.skip(k + 1));
                assert(event_pairs(all.take(k + 1)) =~= event_pairs(all.take(k)).push(
                    (event.policy_id, event),
                ));
            }
            pairs.push((event.policy_id, event));
            proof {
                k = k + 1;
            }
        }
        proof {
            assert(all.take(k) =~= all);
        }
        let events = match Table::from_pairs(pairs) {
            Some(t) => t,
            None => return None,
        };
        let trigger = TriggerContract { config, events };
        proof {
            let ps = event_pairs(all);
            assert forall|id: u64| #[trigger] trigger.events@.contains_key(id) implies trigger.events@[
                id
            ].policy_id == id by {
                lemma_pairs_map_dom(ps, id);
                let j = choose|j: int| 0 <= j < ps.len() && #[trigger] ps[j].0@ == id;
                lemma_pairs_map_lookup(ps, j);
            }
            if trigger.config is None {
                assert(ps =~= Seq::<(u64, TriggerEvent)>::empty());
                assert(trigger.events@ =~= Map::<u64, TriggerEvent>::empty());
            }
            assert(trigger@ =~= rec.state());
        }
        Some(trigger)
    }

    /// A trigger that has not been initialized.
    pub fn new() -> (r: Self)
        ensures
            r.wf(),
            r@.config is None,
            r@.events == Map::<u64, TriggerEvent>::empty(),
    {
        let r = TriggerContract { config: None, events: Table::new() };
        proof {
            assert(r.events@.dom() =~= Set::<u64>::empty());
        }
        r
    }

    /// Sets up the trigger with the registry, oracle and pool it works with.
    pub fn initialize(
        &mut self,
        admin: String,
        policy_contract: String,
        oracle_contract: String,
        pool_contract: String,
    ) -> (r: Result<(), Error>)
        requires
            old(self).wf(),
        ensures
            final(self).wf(),
            events_kept(old(self)@.events, final(self)@.events),
            old(self)@.config is Some ==> r == Err::<(), Error>(Error::AlreadyInitialized)
                && final(self)@ == old(self)@,
            old(self)@.config is None ==> r is Ok && final(self)@ == (TriggerState {
                config: Some((Config { admin, policy_contract, oracle_contract, pool_contract })),
                events: old(self)@.events,
            }),
    {
        if self.config.is_some() {
            return Err(Error::AlreadyInitialized);
        }
        self.config = Some(Config { admin, policy_contract, oracle_contract, pool_contract });
        Ok(())
    }

    /// The contracts the trigger works with.
    pub fn get_config(&self) -> (r: Result<Config, Error>)
        ensures
            match self@.config {
                Some(c) => r == Ok::<Config, Error>(c),
                None => r == Err::<Config, Error>(Error::NotInitialized),
            },
    {
        match &self.config {
            Some(c) => Ok(c.clone()),
            None => Err(Error::NotInitialized),
        }
    }

    /// The trigger's own checks before a policy is looked at: the id must be
    /// non-zero, the trigger configured and the policy not triggered yet.
    pub fn check_request(&self, policy_id: u64) -> (r: Result<(), Error>)
        requires
            self.wf(),
        ensures
            policy_id == 0 ==> r == Err::<(), Error>(Error::InvalidPolicyId),
            policy_id != 0 && self@.config is None ==> r == Err::<(), Error>(Error::NotInitialized),
            policy_id != 0 && self@.config is Some && self@.events.contains_key(policy_id) ==> r
                == Err::<(), Error>(Error::AlreadyTriggered),
            policy_id != 0 && self@.config is Some && !self@.events.contains_key(policy_id) ==> r is Ok,
    {
        if policy_id == 0 {
            return Err(Error::InvalidPolicyId);
        }
        if self.config.is_none() {
            return Err(Error::NotInitialized);
        }
        if self.events.contains_key(&policy_id) {
            return Err(Error::AlreadyTriggered);
        }
        Ok(())
    }

    /// A policy can pay out only while it is active and its season has not ended.
    pub fn check_policy(policy: &Policy, current_time: u64) -> (r: Result<(), Error>)
        ensures
            policy.state != PolicyState::Active ==> r == Err::<(), Error>(Error::InactivePolicy),
            policy.state == PolicyState::Active && current_time > policy.season_end ==> r
                == Err::<(), Error>(Error::ThresholdNotMet),
            policy.state == PolicyState::Active && current_time <= policy.season_end ==> r is Ok,
    {
        if policy.state != PolicyState::Active {
            return Err(Error::InactivePolicy);
        }
        if current_time > policy.season_end {
            return Err(Error::ThresholdNotMet);
        }
        Ok(())
    }

    /// What a policy's rainfall reading decides: the full coverage on drought (rainfall
    /// below the threshold); else a look at the vegetation index when the policy has a
    /// baseline; else no payout.
    pub fn assess_rainfall(policy: &Policy, rainfall: u32) -> (r: Assessment)
        ensures
            rainfall < policy.rainfall_threshold ==> r == Assessment::Pay(
                policy.coverage_amount,
                Finding::Drought,
            ),
            rainfall >= policy.rainfall_threshold && policy.ndvi_baseline > 0 ==> r
                == Assessment::CheckVegetation,
            rainfall >= policy.rainfall_threshold && policy.ndvi_baseline == 0 ==> r
                == Assessment::NoPayout,
    {
        if rainfall < policy.rainfall_threshold {
            Assessment::Pay(policy.coverage_amount, Finding::Drought)
        } else if policy.ndvi_baseline > 0 {
            Assessment::CheckVegetation
        } else {
            Assessment::NoPayout
        }
    }

    /// What a policy's vegetation reading decides: half the coverage (rounded toward zero)
    /// on crop stress (index below 70% of the baseline), else no payout.
    pub fn assess_vegetation(policy: &Policy, ndvi: u32) -> (r: Assessment)
        ensures
            ndvi < stress_threshold(policy.ndvi_baseline) ==> r == Assessment::Pay(
                half_coverage(policy.coverage_amount) as i128,
                Finding::CropStress,
            ),
            ndvi >= stress_threshold(policy.ndvi_baseline) ==> r == Assessment::NoPayout,
    {
        let stress_threshold = ((policy.ndvi_baseline as u64) * 7) / 10;
        if (ndvi as u64) < stress_threshold {
            Assessment::Pay(policy.coverage_amount / 2, Finding::CropStress)
        } else {
            Assessment::NoPayout
        }
    }

    /// The reason recorded for a finding.
    pub fn trigger_reason(finding: Finding) -> (r: String)
        ensures
            r@ == finding_reason(finding),
    {
        match finding {
            Finding::Drought => "drought_detected".to_owned(),
            Finding::CropStress => "crop_stress_detected".to_owned(),
        }
    }

    /// Records the event of a policy that has paid out.
    fn record_trigger(&mut self, event: TriggerEvent)
        requires
            old(self).wf(),
            old(self)@.config is Some,
            !old(self)@.events.contains_key(event.policy_id),
        ensures
            final(self).wf(),
            events_kept(old(self)@.events, final(self)@.events),
            final(self)@ == (TriggerState {
                config: old(self)@.config,
                events: old(self)@.events.insert(event.policy_id, event),
            }),
    {
        let policy_id = event.policy_id;
        self.events.insert(&policy_id, event);
    }

    /// The next step of evaluating `policy_id` at `current_time`, given what the evaluation
    /// has learnt so far: the policy, and the values of its farm's latest rainfall and
    /// vegetation readings.
    pub fn next_step(
        &self,
        policy_id: u64,
        current_time: u64,
        policy: &Option<Policy>,
        rainfall: Option<u32>,
        ndvi: Option<u32>,
    ) -> (r: EvaluationStep)
        requires
            self.wf(),
        ensures
            r == evaluation_step(self@, policy_id, current_time, *policy, rainfall, ndvi),
    {
        match self.check_request(policy_id) {
            Ok(()) => {},
            Err(e) => return EvaluationStep::Refuse(e),
        }
        let p = match policy {
            Some(p) => p,
            None => return EvaluationStep::FetchPolicy,
        };
        match Self::check_policy(p, current_time) {
            Ok(()) => {},
            Err(e) => return EvaluationStep::Refuse(e),
        }
        let rain = match rainfall {
            Some(v) => v,
            None => return EvaluationStep::FetchReading(ReadingType::Rainfall),
        };
        match Self::assess_rainfall(p, rain) {
            Assessment::Pay(amount, finding) => EvaluationStep::Pay(amount, finding),
            Assessment::NoPayout => EvaluationStep::Refuse(Error::ThresholdNotMet),
            Assessment::CheckVegetation => match ndvi {
                None => EvaluationStep::FetchReading(ReadingType::NDVI),
                Some(v) => match Self::assess_vegetation(p, v) {
                    Assessment::Pay(amount, finding) => EvaluationStep::Pay(amount, finding),
                    _ => EvaluationStep::Refuse(Error::ThresholdNotMet),
                },
            },
        }
    }

    /// Records the payout of an evaluation whose steps, with `policy` and these readings,
    /// came to a payment (once the pool has paid and the policy is marked triggered): the
    /// event holds the time, the rainfall value, the amount paid and the reason found.
    pub fn record_payout(
        &mut self,
        policy: &Policy,
        current_time: u64,
        rainfall: u32,
        ndvi: Option<u32>,
    )
        requires
            old(self).wf(),
            evaluation_step(
                old(self)@,
                policy.policy_id,
                current_time,
                Some(*policy),
                Some(rainfall),
                ndvi,
            ) is Pay,
        ensures
            final(self).wf(),
            events_kept(old(self)@.events, final(self)@.events),
            ({
                let step = evaluation_step(
                    old(self)@,
                    policy.policy_id,
                    current_time,
                    Some(*policy),
                    Some(rainfall),
                    ndvi,
                );
                let event = final(self)@.events[policy.policy_id];
                &&& final(self)@.config == old(self)@.config
                &&& final(self)@.events.remove(policy.policy_id) == old(self)@.events
                &&& final(self)@.events.contains_key(policy.policy_id)
                &&& event.policy_id == policy.policy_id
                &&& event.triggered_at == current_time
                &&& event.rainfall_value == rainfall
                &&& event.payout_amount == step->Pay_0
                &&& event.trigger_reason@ == finding_reason(step->Pay_1)
            }),
    {
        let step = self.next_step(policy.policy_id, current_time, &Some(policy.clone()), Some(rainfall), ndvi);
        if let EvaluationStep::Pay(payout_amount, finding) = step {
            let event = TriggerEvent {
                policy_id: policy.policy_id,
                triggered_at: current_time,
                rainfall_value: rainfall,
                payout_amount,
                trigger_reason: Self::trigger_reason(finding),
            };
            self.record_trigger(event);
            proof {
                assert(self@.events.remove(policy.policy_id) =~= old(self)@.events);
            }
        }
    }

    fn pay_and_record(
        &mut self,
        policies: &mut PolicyContract,
        pool: &mut PoolContract,
        policy: &Policy,
        rainfall_value: u32,
        payout_amount: i128,
        trigger_reason: String,
        current_time: u64,
    ) -> (r: Result<(), EvaluationError>)
        requires
            old(self).wf(),
            old(policies).wf(),
            old(pool).wf(),
            old(self)@.config is Some,
            !old(self)@.events.contains_key(policy.policy_id),
            old(policies)@.policy(policy.policy_id) == Some(*policy),
            policy.state == PolicyState::Active,
        ensures
            final(self).wf(),
            final(policies).wf(),
            final(pool).wf(),
            old(pool)@.payout_check(policy.policy_id, payout_amount as int) matches Err(e) ==> r
                == Err::<(), EvaluationError>(EvaluationError::Pool(e)) && final(self)@ == old(self)@ && final(policies)@ == old(policies)@ && final(pool)@ == old(pool)@,
            old(pool)@.payout_check(policy.policy_id, payout_amount as int) is Ok ==> {
                &&& r is Ok
                &&& final(pool)@ == old(pool)@.with_payout(policy.policy_id, payout_amount)
                &&& final(policies)@ == old(policies)@.with_state(
                    policy.policy_id,
                    PolicyState::Triggered,
                )
                &&& final(self)@ == (TriggerState {
                    config: old(self)@.config,
                    events: old(self)@.events.insert(
                        policy.policy_id,
                        TriggerEvent {
                            policy_id: policy.policy_id,
                            triggered_at: current_time,
                            rainfall_value,
                            payout_amount,
                            trigger_reason,
                        },
                    ),
                })
            },
    {
        proof {
            old(pool).lemma_wf();
            old(policies).lemma_wf();
        }
        let policy_id = policy.policy_id;
        match pool.release_payout(policy_id, policy.farmer.clone(), payout_amount) {
            Ok(()) => {},
            Err(e) => return Err(EvaluationError::Pool(e)),
        }
        match policies.update_policy_state(policy_id, PolicyState::Triggered) {
            Ok(()) => {},
            Err(e) => return Err(EvaluationError::Policy(e)),
        }
        let event = TriggerEvent {
            policy_id,
            triggered_at: current_time,
            rainfall_value,
            payout_amount,
            trigger_reason,
        };
        self.record_trigger(event);
        Ok(())
    }

    /// Evaluates a policy at `current_time` against the oracle's latest readings for its
    /// farm. On drought (rainfall below threshold) the pool pays the full coverage; else, on
    /// crop stress (vegetation below 70% of a set baseline), half of it. A paying policy is
    /// marked triggered and its event recorded; any refusal leaves every contract unchanged.
    pub fn evaluate_policy(
        &mut self,
        policies: &mut PolicyContract,
        oracle: &OracleContract,
        pool: &mut PoolContract,
        policy_id: u64,
        current_time: u64,
    ) -> (r: Result<(), EvaluationError>)
        requires
            old(self).wf(),
            old(policies).wf(),
            oracle.wf(),
            old(pool).wf(),
        ensures
            final(self).wf(),
            final(policies).wf(),
            final(pool).wf(),
            events_kept(old(self)@.events, final(self)@.events),
            r is Err ==> final(self)@ == old(self)@ && final(policies)@ == old(policies)@ && final(pool)@ == old(pool)@,
            match assessment(old(self)@, old(policies)@, oracle@, policy_id, current_time) {
                Err(e) => r == Err::<(), EvaluationError>(e),
                Ok((payout, finding)) => match old(pool)@.payout_check(policy_id, payout) {
                    Err(e) => r == Err::<(), EvaluationError>(EvaluationError::Pool(e)),
                    Ok(_) => {
                        let p = old(policies)@.policy(policy_id).unwrap();
                        let event = final(self)@.events[policy_id];
                        &&& r is Ok
                        &&& final(pool)@ == old(pool)@.with_payout(policy_id, payout as i128)
                        &&& final(policies)@ == old(policies)@.with_state(
                            policy_id,
                            PolicyState::Triggered,
                        )
                        &&& final(self)@.config == old(self)@.config
                        &&& final(self)@.events.remove(policy_id) == old(self)@.events
                        &&& final(self)@.events.contains_key(policy_id)
                        &&& event.policy_id == policy_id
                        &&& event.triggered_at == current_time
                        &&& event.rainfall_value == oracle@.latest(
                            p.farm_geohash@,
                            ReadingType::Rainfall,
                        ).unwrap().value
                        &&& event.payout_amount == payout
                        &&& event.trigger_reason@ == finding_reason(finding)
                    },
                },
            },
    {
        match self.check_request(policy_id) {
            Ok(()) => {},
            Err(e) => return Err(EvaluationError::Trigger(e)),
        }
        let policy = match policies.get_policy(policy_id) {
            Ok(p) => p,
            Err(e) => return Err(EvaluationError::Policy(e)),
        };
        proof {
            old(policies).lemma_wf();
        }
        match Self::check_policy(&policy, current_time) {
            Ok(()) => {},
            Err(e) => return Err(EvaluationError::Trigger(e)),
        }
        let rainfall = match oracle.get_latest(policy.farm_geohash.clone(), ReadingType::Rainfall) {
            Ok(reading) => reading,
            Err(e) => return Err(EvaluationError::Oracle(e)),
        };
        let assessment = match Self::assess_rainfall(&policy, rainfall.value) {
            Assessment::CheckVegetation => {
                let ndvi = match oracle.get_latest(policy.farm_geohash.clone(), ReadingType::NDVI) {
                    Ok(reading) => reading,
                    Err(e) => return Err(EvaluationError::Oracle(e)),
                };
                Self::assess_vegetation(&policy, ndvi.value)
            },
            other => other,
        };
        if let Assessment::Pay(payout_amount, finding) = assessment {
            let r = self.pay_and_record(
                policies,
                pool,
                &policy,
                rainfall.value,
                payout_amount,
                Self::trigger_reason(finding),
                current_time,
            );
            proof {
                if r is Ok {
                    assert(self@.events.remove(policy_id) =~= old(self)@.events);
                }
            }
            return r;
        }
        Err(EvaluationError::Trigger(Error::ThresholdNotMet))
    }

    /// The event recorded when a policy paid out.
    pub fn get_trigger_event(&self, policy_id: u64) -> (r: Result<TriggerEvent, Error>)
        requires
            self.wf(),
        ensures
            self@.events.contains_key(policy_id) ==> r == Ok::<TriggerEvent, Error>(
                self@.events[policy_id],
            ),
            !self@.events.contains_key(policy_id) ==> r == Err::<TriggerEvent, Error>(
                Error::NotInitialized,
            ),
    {
        match self.events.get(&policy_id) {
            Some(event) => Ok(event.clone()),
            None => Err(Error::NotInitialized),
        }
    }

    /// Whether a policy has paid out.
    pub fn is_triggered(&self, policy_id: u64) -> (r: bool)
        requires
            self.wf(),
        ensures
            r == self@.events.contains_key(policy_id),
    {
        self.events.contains_key(&policy_id)
    }
}

} // verus!
