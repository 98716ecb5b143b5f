use vstd::prelude::*;

use crate::least_connections::{
    after_increment, after_release, all_nonnegative, count_of, fresh_counts, hosts_of,
    is_least_loaded, ConnectionTable,
};
use crate::Worker;

verus! {

/// The closed set of selection policies.
#[derive(Debug, Clone, Copy, PartialEq, Eq, Hash, Structural)]
pub enum AlgorithmType {
    RoundRobin,
    LeastConnections,
}

/// The worker that a round-robin cursor designates in a registry.
pub open spec fn round_robin_pick(cursor: nat, workers: Seq<Worker>) -> Worker
    recommends
        workers.len() > 0,
{
    workers[(cursor % workers.len()) as int]
}

/// The cursor after one round-robin selection over `n` workers.
pub open spec fn round_robin_next(cursor: nat, n: nat) -> nat
    recommends
        n > 0,
{
    (cursor + 1) % n
}

/// The cursor of a fresh round-robin policy after `t` selections over `n`
/// workers.
pub open spec fn round_robin_cursor_after(n: nat, t: nat) -> nat
    decreases t,
{
    if t == 0 {
        0
    } else {
        round_robin_next(round_robin_cursor_after(n, (t - 1) as nat), n)
    }
}

proof fn lemma_cursor_after(n: nat, t: nat)
    requires
        n > 0,
    ensures
        round_robin_cursor_after(n, t) == t % n,
    decreases t,
{
    if t > 0 {
        lemma_cursor_after(n, (t - 1) as nat);
        vstd::arithmetic::div_mod::lemma_add_mod_noop_right(1, (t - 1) as int, n as int);
        assert(round_robin_cursor_after(n, t) == (((t - 1) as int % n as int) + 1) % n as int);
        assert(1 + (t - 1) as int == t as int);
    } else {
        vstd::arithmetic::div_mod::lemma_small_mod(0, n);
    }
}

/// From a fresh round-robin policy over a non-empty registry of `n` workers,
/// `k * n` selections return the registry in order, `k` times over: the
/// `t`-th selection, counting from 0, returns worker `t mod n`.
pub proof fn round_robin_cycles(workers: Seq<Worker>, k: nat)
    requires
        workers.len() > 0,
        k >= 1,
    ensures
        forall|t: nat|
            t < k * workers.len() ==> #[trigger] round_robin_pick(
                round_robin_cursor_after(workers.len(), t),
                workers,
            ) == workers[(t % workers.len()) as int],
{
    assert forall|t: nat| t < k * workers.len() implies #[trigger] round_robin_pick(
        round_robin_cursor_after(workers.len(), t),
        workers,
    ) == workers[(t % workers.len()) as int] by {
        lemma_cursor_after(workers.len(), t);
        vstd::arithmetic::div_mod::lemma_mod_twice(t as int, workers.len() as int);
    }
}

/// Over a registry of one worker, round-robin returns that worker whatever
/// its cursor.
pub proof fn round_robin_single_worker(workers: Seq<Worker>, cursor: nat)
    requires
        workers.len() == 1,
    ensures
        round_robin_pick(cursor, workers) == workers[0],
{
    assert((cursor as int) % 1 == 0);
}

/// A selection policy: picks a worker of a non-empty registry and keeps the
/// bookkeeping its algorithm needs.
pub trait BalancingAlgorithm: Sized + Send + Sync {
    /// The kind of policy this is.
    spec fn kind(&self) -> AlgorithmType;

    /// Picks a worker of `workers` and updates the policy's state.
    fn choose_worker<'a>(&mut self, workers: &'a [Worker]) -> (r: &'a Worker)
        requires
            workers@.len() > 0,
        ensures
            workers@.contains(*r),
            final(self).kind() == old(self).kind(),
    ;

    /// Gives back a worker obtained from `choose_worker` once its request is
    /// over.
    fn release(&mut self, worker: &Worker)
        ensures
            final(self).kind() == old(self).kind(),
        default_ensures
            *final(self) == *old(self),
    {
        let _ = worker;
    }

    /// The kind of policy this is.
    fn get_type(&self) -> (r: AlgorithmType)
        ensures
            r == self.kind(),
    ;
}

/// Round-robin selection: a cursor that rotates over the registry.
#[derive(Debug, Clone, Copy)]
pub struct RoundRobinAlgorithm {
    current_index: usize,
}

impl RoundRobinAlgorithm {
    /// The position of the cursor.
    pub closed spec fn cursor(&self) -> nat {
        self.current_index as nat
    }

    /// A fresh policy whose cursor is at the first worker.
    pub fn new() -> (r: Self)
        ensures
            r.cursor() == 0,
    {
        RoundRobinAlgorithm { current_index: 0 }
    }
}

impl BalancingAlgorithm for RoundRobinAlgorithm {
    open spec fn kind(&self) -> AlgorithmType {
        AlgorithmType::RoundRobin
    }

    fn choose_worker<'a>(&mut self, workers: &'a [Worker]) -> (r: &'a Worker)
        ensures
            *r == round_robin_pick(old(self).cursor(), workers@),
            final(self).cursor() == round_robin_next(old(self).cursor(), workers@.len()),
    {
        let n = workers.len();
        let i = self.current_index % n;
        let worker = &workers[i];
        self.current_index = (i + 1) % n;
        proof {
            let c = old(self).cursor() as int;
            assert((c % n as int + 1) % n as int == (c + 1) % n as int) by (nonlinear_arith)
                requires n > 0;
        }
        worker
    }

    fn get_type(&self) -> (r: AlgorithmType) {
        AlgorithmType::RoundRobin
    }
}

/// Least-connections selection: a counter of outstanding requests per
/// registered host, set up from the registry at construction and never
/// resized afterwards.
pub struct LeastConnectionsAlgorithm {
    connection_map: ConnectionTable,
}

impl View for LeastConnectionsAlgorithm {
    type V = Map<Seq<char>, int>;

    /// The counters, keyed by host.
    closed spec fn view(&self) -> Map<Seq<char>, int> {
        self.connection_map@
    }
}

impl LeastConnectionsAlgorithm {
    /// A policy with an idle counter for each host of `workers`.
    pub fn new(workers: &[Worker]) -> (r: Self)
        ensures
            r@ == fresh_counts(hosts_of(workers@)),
    {
        let mut connection_map = ConnectionTable::new();
        let mut i: usize = 0;
        while i < workers.len()
            invariant
                i <= workers@.len(),
                connection_map@ == fresh_counts(hosts_of(workers@.subrange(0, i as int))),
            decreases workers@.len() - i,
        {
            connection_map.track(&workers[i].host);
            proof {
                let prefix = hosts_of(workers@.subrange(0, i as int));
                let next = hosts_of(workers@.subrange(0, i + 1));
                assert(next =~= prefix.push(workers@[i as int].host@));
                assert forall|h: Seq<char>| next.contains(h) <==> (prefix.contains(h) || h
                    == workers@[i as int].host@) by {
                    if next.contains(h) {
                        let k = choose|k: int| 0 <= k < next.len() && next[k] == h;
                        if k < prefix.len() {
                            assert(prefix[k] == h);
                        }
                    }
                    if prefix.contains(h) {
                        let k = choose|k: int| 0 <= k < prefix.len() && prefix[k] == h;
                        assert(next[k] == h);
                    }
                    if h == workers@[i as int].host@ {
                        assert(next[prefix.len() as int] == h);
                    }
                }
                assert(connection_map@ =~= fresh_counts(next));
            }
            i = i + 1;
        }
        proof {
            assert(workers@.subrange(0, workers@.len() as int) =~= workers@);
        }
        LeastConnectionsAlgorithm { connection_map }
    }

    /// The outstanding-request count of `host`, 0 for an unregistered host.
    pub fn connections(&self, host: &String) -> (r: i32)
        ensures
            r as int == count_of(self@, host@),
            r >= 0,
    {
        self.connection_map.connections(host)
    }
}

impl BalancingAlgorithm for LeastConnectionsAlgorithm {
    open spec fn kind(&self) -> AlgorithmType {
        AlgorithmType::LeastConnections
    }

    fn choose_worker<'a>(&mut self, workers: &'a [Worker]) -> (r: &'a Worker)
        ensures
            exists|i: int|
                #[trigger] is_least_loaded(old(self)@, hosts_of(workers@), i) && *r == workers@[i]
                    && final(self)@ == after_increment(old(self)@, workers@[i].host@),
            all_nonnegative(final(self)@),
    {
        let ghost before = self@;
        let i = self.connection_map.least_loaded(workers);
        let worker = &workers[i];
        self.connection_map.increment(&worker.host);
        proof {
            assert(is_least_loaded(before, hosts_of(workers@), i as int));
        }
        worker
    }

    fn release(&mut self, worker: &Worker)
        ensures
            final(self)@ == after_release(old(self)@, worker.host@),
            all_nonnegative(final(self)@),
    {
        self.connection_map.decrement(&worker.host);
    }

    fn get_type(&self) -> (r: AlgorithmType) {
        AlgorithmType::LeastConnections
    }
}

} // verus!
