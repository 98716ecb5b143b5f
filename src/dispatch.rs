use vstd::prelude::*;

use crate::balancing_algorithms::{
    round_robin_next, round_robin_pick, AlgorithmType, BalancingAlgorithm,
    LeastConnectionsAlgorithm, RoundRobinAlgorithm,
};
use crate::least_connections::{
    after_increment, after_release, fresh_counts, hosts_of, is_least_loaded,
};
use crate::metrics::{Metrics, DEBOUNCE_MS};
use crate::Worker;

verus! {

/// The mean latency, in milliseconds, above which a switch of policy is
/// considered.
pub const LATENCY_THRESHOLD_MS: u64 = 2000;

/// Why a controller could not be set up.
#[derive(Debug, Clone, Copy, PartialEq, Eq, Structural)]
pub enum LoadBalancerError {
    /// The list of worker hosts is empty.
    EmptyRegistry,
}

impl LoadBalancerError {
    /// A sentence that describes the error.
    pub fn message(&self) -> (r: &'static str)
        ensures
            r@ == "Worker hosts list cannot be empty"@,
    {
        match self {
            LoadBalancerError::EmptyRegistry => "Worker hosts list cannot be empty",
        }
    }
}

/// The fixed, non-empty, ordered list of workers.
pub struct Registry {
    workers: Vec<Worker>,
}

impl View for Registry {
    type V = Seq<Worker>;

    closed spec fn view(&self) -> Seq<Worker> {
        self.workers@
    }
}

impl Registry {
    #[verifier::type_invariant]
    spec fn non_empty(&self) -> bool {
        self.workers@.len() > 0
    }

    /// A registry of `worker_hosts`, which must not be empty.
    pub fn new(worker_hosts: Vec<Worker>) -> (r: Result<Registry, LoadBalancerError>)
        ensures
            worker_hosts@.len() > 0 <==> r is Ok,
            r matches Ok(reg) ==> reg@ == worker_hosts@,
            r matches Err(e) ==> e == LoadBalancerError::EmptyRegistry,
    {
        if worker_hosts.len() == 0 {
            Err(LoadBalancerError::EmptyRegistry)
        } else {
            Ok(Registry { workers: worker_hosts })
        }
    }

    /// The workers, in order.
    pub fn workers(&self) -> (r: &[Worker])
        ensures
            r@ == self@,
            r@.len() > 0,
    {
        proof {
            use_type_invariant(self);
        }
        self.workers.as_slice()
    }
}

/// The policy in use: one of the two selection algorithms.
///
/// A request is released on the policy in use when it ends, which after a
/// switch is not the one that picked it; the release is not routed back.
/// Round-robin ignores releases; a fresh least-connections table lowers the
/// counter of that request's host if it is positive, and leaves a 0 as it
/// is, so its counts may be off by the requests in flight across the switch.
/// The meter reset that comes with every switch keeps this short-lived.
pub enum Policy {
    RoundRobin(RoundRobinAlgorithm),
    LeastConnections(LeastConnectionsAlgorithm),
}

/// `after` is `before` once `choose_worker` picked `w` from `workers`.
pub open spec fn chose(before: Policy, after: Policy, workers: Seq<Worker>, w: Worker) -> bool {
    match (before, after) {
        (Policy::RoundRobin(b), Policy::RoundRobin(a)) => {
            &&& w == round_robin_pick(b.cursor(), workers)
            &&& a.cursor() == round_robin_next(b.cursor(), workers.len())
        },
        (Policy::LeastConnections(b), Policy::LeastConnections(a)) => exists|i: int|
            #[trigger] is_least_loaded(b@, hosts_of(workers), i) && w == workers[i] && a@
                == after_increment(b@, workers[i].host@),
        _ => false,
    }
}

/// `after` is `before` once the request to `worker` is over.
pub open spec fn released(before: Policy, after: Policy, worker: Worker) -> bool {
    match (before, after) {
        (Policy::RoundRobin(b), Policy::RoundRobin(a)) => a.cursor() == b.cursor(),
        (Policy::LeastConnections(b), Policy::LeastConnections(a)) => a@ == after_release(
            b@,
            worker.host@,
        ),
        _ => false,
    }
}

/// `p` is a freshly built policy of `kind` over `workers`.
pub open spec fn is_fresh(p: Policy, kind: AlgorithmType, workers: Seq<Worker>) -> bool {
    match p {
        Policy::RoundRobin(a) => kind == AlgorithmType::RoundRobin && a.cursor() == 0,
        Policy::LeastConnections(a) => kind == AlgorithmType::LeastConnections && a@
            == fresh_counts(hosts_of(workers)),
    }
}

/// The kind that an automatic switch moves to from `kind`.
pub open spec fn other_kind(kind: AlgorithmType) -> AlgorithmType {
    match kind {
        AlgorithmType::RoundRobin => AlgorithmType::LeastConnections,
        AlgorithmType::LeastConnections => AlgorithmType::RoundRobin,
    }
}

impl Policy {
    /// A fresh policy of `kind` over `workers`.
    pub fn new(kind: AlgorithmType, workers: &[Worker]) -> (r: Self)
        ensures
            is_fresh(r, kind, workers@),
    {
        match kind {
            AlgorithmType::RoundRobin => Policy::RoundRobin(RoundRobinAlgorithm::new()),
            AlgorithmType::LeastConnections => Policy::LeastConnections(
                LeastConnectionsAlgorithm::new(workers),
            ),
        }
    }
}

impl BalancingAlgorithm for Policy {
    open spec fn kind(&self) -> AlgorithmType {
        match self {
            Policy::RoundRobin(_) => AlgorithmType::RoundRobin,
            Policy::LeastConnections(_) => AlgorithmType::LeastConnections,
        }
    }

    fn choose_worker<'a>(&mut self, workers: &'a [Worker]) -> (r: &'a Worker)
        ensures
            chose(*old(self), *final(self), workers@, *r),
    {
        match self {
            Policy::RoundRobin(a) => a.choose_worker(workers),
            Policy::LeastConnections(a) => a.choose_worker(workers),
        }
    }

    fn release(&mut self, worker: &Worker)
        ensures
            released(*old(self), *final(self), *worker),
    {
        match self {
            Policy::RoundRobin(a) => a.release(worker),
            Policy::LeastConnections(a) => a.release(worker),
        }
    }

    fn get_type(&self) -> (r: AlgorithmType) {
        match self {
            Policy::RoundRobin(a) => a.get_type(),
            Policy::LeastConnections(a) => a.get_type(),
        }
    }
}

/// An automatic switch is due for a policy of `kind`, with meter `m`, at
/// `now_ms`: its mean latency is known and above the threshold, and the
/// debounce period has run out.
pub open spec fn switch_due(kind: AlgorithmType, m: Metrics, now_ms: int) -> bool {
    &&& m.average(kind) matches Some(a) && a > LATENCY_THRESHOLD_MS
    &&& now_ms >= m.last_switch_ms() + DEBOUNCE_MS
}

/// No automatic switch is due before the debounce period that starts at the
/// meter's construction, or at its last reset, has run out.
pub proof fn no_switch_during_debounce(kind: AlgorithmType, m: Metrics, now_ms: int)
    requires
        now_ms < m.last_switch_ms() + DEBOUNCE_MS,
    ensures
        !switch_due(kind, m, now_ms),
{
}

/// `after` is the meter `before` reset for `kind` at `now_ms`.
pub open spec fn was_reset(before: Metrics, after: Metrics, kind: AlgorithmType, now_ms: int) -> bool {
    &&& after.average(kind).is_none()
    &&& forall|k: AlgorithmType| k != kind ==> after.average(k) == before.average(k)
    &&& after.sample_count() == 0
    &&& after.last_switch_ms() == now_ms
}

/// Replaces `policy` by a fresh one of `kind` and resets the meter for the
/// kind that was in use.
pub(crate) fn install_policy(
    policy: &mut Policy,
    metrics: &mut Metrics,
    registry: &Registry,
    kind: AlgorithmType,
    now_ms: u128,
)
    ensures
        is_fresh(*final(policy), kind, registry@),
        was_reset(*old(metrics), *final(metrics), old(policy).kind(), now_ms as int),
{
    let previous = policy.get_type();
    *policy = Policy::new(kind, registry.workers());
    metrics.reset_at(previous, now_ms);
}

/// Picks the worker for one request at `now_ms`. When a switch is due, the
/// policy in use is first replaced by a fresh one of the other kind and the
/// meter is reset for the kind that was in use. Returns the worker and the
/// kind of the policy that picked it.
pub fn select_worker<'a>(
    policy: &mut Policy,
    metrics: &mut Metrics,
    registry: &'a Registry,
    now_ms: u128,
) -> (r: (&'a Worker, AlgorithmType))
    ensures
        switch_due(old(policy).kind(), *old(metrics), now_ms as int) ==> exists|p: Policy|
            #[trigger] is_fresh(p, other_kind(old(policy).kind()), registry@) && chose(
                p,
                *final(policy),
                registry@,
                *r.0,
            ) && was_reset(*old(metrics), *final(metrics), old(policy).kind(), now_ms as int),
        !switch_due(old(policy).kind(), *old(metrics), now_ms as int) ==> chose(
            *old(policy),
            *final(policy),
            registry@,
            *r.0,
        ) && *final(metrics) == *old(metrics),
        r.1 == final(policy).kind(),
{
    let kind = policy.get_type();
    let average = metrics.get_average_response_time_ms(kind);
    if average > LATENCY_THRESHOLD_MS && metrics.should_switch_at(now_ms) {
        let next = match kind {
            AlgorithmType::RoundRobin => AlgorithmType::LeastConnections,
            AlgorithmType::LeastConnections => AlgorithmType::RoundRobin,
        };
        install_policy(policy, metrics, registry, next, now_ms);
    }
    let ghost installed = *policy;
    let workers = registry.workers();
    let worker = policy.choose_worker(workers);
    let chosen_kind = policy.get_type();
    proof {
        if switch_due(old(policy).kind(), *old(metrics), now_ms as int) {
            assert(is_fresh(installed, other_kind(old(policy).kind()), registry@));
        }
    }
    (worker, chosen_kind)
}

} // verus!
