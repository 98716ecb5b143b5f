use vstd::prelude::*;

use crate::Worker;

verus! {

/// The outstanding-request count of `host` in `m`: hosts without an entry
/// count as idle.
pub open spec fn count_of(m: Map<Seq<char>, int>, host: Seq<char>) -> int {
    if m.contains_key(host) {
        m[host]
    } else {
        0
    }
}

/// A counter after one more request, held at `i32::MAX` once it gets there.
pub open spec fn bumped(c: int) -> int {
    if c < i32::MAX {
        c + 1
    } else {
        c
    }
}

/// `m` after one more request to `host`; a host without an entry stays so.
pub open spec fn after_increment(m: Map<Seq<char>, int>, host: Seq<char>) -> Map<
    Seq<char>,
    int,
> {
    if m.contains_key(host) {
        m.insert(host, bumped(m[host]))
    } else {
        m
    }
}

/// `m` after a request to `host` is over: a positive counter goes down by
/// one, a zero counter and a host without an entry stay as they are.
pub open spec fn after_release(m: Map<Seq<char>, int>, host: Seq<char>) -> Map<
    Seq<char>,
    int,
> {
    if m.contains_key(host) && m[host] > 0 {
        m.insert(host, m[host] - 1)
    } else {
        m
    }
}

/// `m` with an idle entry for `host` where it had none.
pub open spec fn after_track(m: Map<Seq<char>, int>, host: Seq<char>) -> Map<Seq<char>, int> {
    if m.contains_key(host) {
        m
    } else {
        m.insert(host, 0)
    }
}

/// Index `i` of `hosts` holds a least-loaded host, and no earlier index does.
pub open spec fn is_least_loaded(m: Map<Seq<char>, int>, hosts: Seq<Seq<char>>, i: int) -> bool {
    &&& 0 <= i < hosts.len()
    &&& forall|j: int| 0 <= j < hosts.len() ==> count_of(m, hosts[i]) <= count_of(m, hosts[j])
    &&& forall|j: int| 0 <= j < i ==> count_of(m, hosts[i]) < count_of(m, hosts[j])
}

/// The host URLs of a registry, in order.
pub open spec fn hosts_of(workers: Seq<Worker>) -> Seq<Seq<char>> {
    workers.map_values(|w: Worker| w.host@)
}

/// The views of a sequence of host strings, in order.
pub open spec fn host_views(hosts: Seq<String>) -> Seq<Seq<char>> {
    hosts.map_values(|h: String| h@)
}

/// At most one index of `hosts` is the first least-loaded one.
pub proof fn lemma_least_loaded_unique(m: Map<Seq<char>, int>, hosts: Seq<Seq<char>>, i: int, j: int)
    requires
        is_least_loaded(m, hosts, i),
        is_least_loaded(m, hosts, j),
    ensures
        i == j,
{
    if i < j {
        assert(count_of(m, hosts[j]) < count_of(m, hosts[i]));
        assert(count_of(m, hosts[i]) <= count_of(m, hosts[j]));
    } else if j < i {
        assert(count_of(m, hosts[i]) < count_of(m, hosts[j]));
        assert(count_of(m, hosts[j]) <= count_of(m, hosts[i]));
    }
}

/// The index that a least-connections selection picks among `hosts`.
pub open spec fn least_loaded_index(m: Map<Seq<char>, int>, hosts: Seq<Seq<char>>) -> int {
    choose|i: int| is_least_loaded(m, hosts, i)
}

/// The index picked is the one that `is_least_loaded` designates.
pub proof fn lemma_least_loaded_index(m: Map<Seq<char>, int>, hosts: Seq<Seq<char>>, i: int)
    requires
        is_least_loaded(m, hosts, i),
    ensures
        least_loaded_index(m, hosts) == i,
{
    lemma_least_loaded_unique(m, hosts, least_loaded_index(m, hosts), i);
}

/// The counters after one least-connections selection among `hosts`.
pub open spec fn after_selection(m: Map<Seq<char>, int>, hosts: Seq<Seq<char>>) -> Map<
    Seq<char>,
    int,
> {
    after_increment(m, hosts[least_loaded_index(m, hosts)])
}

/// The counters after `ops`, run in order from `m` over registry hosts
/// `hosts`: `None` stands for a selection, `Some(h)` for the release of `h`.
pub open spec fn after_ops(
    m: Map<Seq<char>, int>,
    hosts: Seq<Seq<char>>,
    ops: Seq<Option<Seq<char>>>,
) -> Map<Seq<char>, int>
    decreases ops.len(),
{
    if ops.len() == 0 {
        m
    } else {
        let before = after_ops(m, hosts, ops.drop_last());
        match ops.last() {
            None => after_selection(before, hosts),
            Some(h) => after_release(before, h),
        }
    }
}

/// The indices picked by `t` selections in a row among `hosts`, from `m`.
pub open spec fn selections(m: Map<Seq<char>, int>, hosts: Seq<Seq<char>>, t: nat) -> Seq<int>
    decreases t,
{
    if t == 0 {
        Seq::empty()
    } else {
        let before = after_ops(m, hosts, selection_ops((t - 1) as nat));
        selections(m, hosts, (t - 1) as nat).push(least_loaded_index(before, hosts))
    }
}

proof fn lemma_ops_nonnegative(
    m: Map<Seq<char>, int>,
    hosts: Seq<Seq<char>>,
    ops: Seq<Option<Seq<char>>>,
)
    requires
        all_nonnegative(m),
    ensures
        all_nonnegative(after_ops(m, hosts, ops)),
    decreases ops.len(),
{
    if ops.len() > 0 {
        lemma_ops_nonnegative(m, hosts, ops.drop_last());
    }
}

/// From fresh counters over a registry, whatever selections and releases
/// run, in whatever order, every counter stays non-negative; so it does from
/// any counters that are all non-negative.
pub proof fn least_connections_counts_stay_nonnegative(
    m: Map<Seq<char>, int>,
    hosts: Seq<Seq<char>>,
    ops: Seq<Option<Seq<char>>>,
)
    ensures
        all_nonnegative(after_ops(fresh_counts(hosts), hosts, ops)),
        all_nonnegative(m) ==> all_nonnegative(after_ops(m, hosts, ops)),
{
    lemma_ops_nonnegative(fresh_counts(hosts), hosts, ops);
    if all_nonnegative(m) {
        lemma_ops_nonnegative(m, hosts, ops);
    }
}

/// Releasing a host whose counter is 0 leaves every counter as it was.
pub proof fn least_connections_release_idle(m: Map<Seq<char>, int>, host: Seq<char>)
    requires
        count_of(m, host) == 0,
    ensures
        after_release(m, host) == m,
        count_of(after_release(m, host), host) == 0,
{
}

/// A selection never picks a host with more outstanding requests than some
/// other registered host.
pub proof fn least_connections_avoids_busier(
    m: Map<Seq<char>, int>,
    hosts: Seq<Seq<char>>,
    a: int,
    b: int,
)
    requires
        0 <= a < hosts.len(),
        0 <= b < hosts.len(),
        count_of(m, hosts[b]) < count_of(m, hosts[a]),
    ensures
        hosts[least_loaded_index(m, hosts)] != hosts[a],
{
    let i = lemma_some_least_loaded(m, hosts);
    lemma_least_loaded_index(m, hosts, i);
}

/// With worker `b` less busy than worker `a`, a selection picks `b` when no
/// other worker is as idle as `b`, save ones that come after it.
pub proof fn least_connections_picks_less_busy(
    m: Map<Seq<char>, int>,
    hosts: Seq<Seq<char>>,
    a: int,
    b: int,
)
    requires
        0 <= a < hosts.len(),
        0 <= b < hosts.len(),
        count_of(m, hosts[b]) < count_of(m, hosts[a]),
        forall|j: int|
            0 <= j < hosts.len() && j != a && j != b ==> count_of(m, hosts[b]) < count_of(
                m,
                #[trigger] hosts[j],
            ) || (count_of(m, hosts[b]) == count_of(m, hosts[j]) && j > b),
    ensures
        least_loaded_index(m, hosts) == b,
{
    assert(is_least_loaded(m, hosts, b));
    lemma_least_loaded_index(m, hosts, b);
}

/// Some index of a non-empty `hosts` is the first least-loaded one.
pub proof fn lemma_some_least_loaded(m: Map<Seq<char>, int>, hosts: Seq<Seq<char>>) -> (i: int)
    requires
        hosts.len() > 0,
    ensures
        is_least_loaded(m, hosts, i),
    decreases hosts.len(),
{
    if hosts.len() == 1 {
        0
    } else {
        let rest = hosts.drop_last();
        let i = lemma_some_least_loaded(m, rest);
        let last = hosts.len() - 1;
        assert(forall|j: int| 0 <= j < rest.len() ==> rest[j] == hosts[j]);
        if count_of(m, hosts[last]) < count_of(m, hosts[i]) {
            assert forall|j: int| 0 <= j < hosts.len() implies count_of(m, hosts[last]) <= count_of(
                m,
                hosts[j],
            ) by {
                if j < last {
                    assert(count_of(m, rest[i]) <= count_of(m, rest[j]));
                }
            }
            assert forall|j: int| 0 <= j < last implies count_of(m, hosts[last]) < count_of(
                m,
                hosts[j],
            ) by {
                assert(count_of(m, rest[i]) <= count_of(m, rest[j]));
            }
            last
        } else {
            assert forall|j: int| 0 <= j < hosts.len() implies count_of(m, hosts[i]) <= count_of(
                m,
                hosts[j],
            ) by {
                if j < last {
                    assert(count_of(m, rest[i]) <= count_of(m, rest[j]));
                }
            }
            assert forall|j: int| 0 <= j < i implies count_of(m, hosts[i]) < count_of(
                m,
                hosts[j],
            ) by {
                assert(count_of(m, rest[i]) < count_of(m, rest[j]));
            }
            i
        }
    }
}

/// An idle counter for each of `hosts` and for nothing else.
pub open spec fn fresh_counts(hosts: Seq<Seq<char>>) -> Map<Seq<char>, int> {
    Map::new(|h: Seq<char>| hosts.contains(h), |h: Seq<char>| 0int)
}

/// `t` selections in a row.
pub open spec fn selection_ops(t: nat) -> Seq<Option<Seq<char>>> {
    Seq::new(t, |k: int| None)
}

spec fn busy_prefix(hosts: Seq<Seq<char>>, t: int) -> Map<Seq<char>, int> {
    Map::new(
        |h: Seq<char>| hosts.contains(h),
        |h: Seq<char>|
            if exists|j: int| 0 <= j < t && hosts[j] == h {
                1int
            } else {
                0int
            },
    )
}

proof fn lemma_busy_count(hosts: Seq<Seq<char>>, t: int, j: int)
    requires
        hosts.no_duplicates(),
        0 <= j < hosts.len(),
    ensures
        count_of(busy_prefix(hosts, t), hosts[j]) == if j < t {
            1int
        } else {
            0int
        },
{
    assert(hosts.contains(hosts[j]));
    if j < t {
        assert(0 <= j < t && hosts[j] == hosts[j]);
    } else {
        assert forall|k: int| 0 <= k < t implies hosts[k] != hosts[j] by {
            if 0 <= k < hosts.len() && hosts[k] == hosts[j] {
                assert(k == j);
            }
        }
    }
}

proof fn lemma_busy_pick(hosts: Seq<Seq<char>>, t: int)
    requires
        hosts.no_duplicates(),
        0 <= t < hosts.len(),
    ensures
        least_loaded_index(busy_prefix(hosts, t), hosts) == t,
{
    let m = busy_prefix(hosts, t);
    lemma_busy_count(hosts, t, t);
    assert forall|j: int| 0 <= j < hosts.len() implies count_of(m, hosts[t]) <= count_of(
        m,
        hosts[j],
    ) by {
        lemma_busy_count(hosts, t, j);
    }
    assert forall|j: int| 0 <= j < t implies count_of(m, hosts[t]) < count_of(m, hosts[j]) by {
        lemma_busy_count(hosts, t, j);
    }
    lemma_least_loaded_index(m, hosts, t);
}

proof fn lemma_busy_state(hosts: Seq<Seq<char>>, t: nat)
    requires
        hosts.no_duplicates(),
        t <= hosts.len(),
    ensures
        after_ops(fresh_counts(hosts), hosts, selection_ops(t)) == busy_prefix(hosts, t as int),
    decreases t,
{
    if t == 0 {
        assert(busy_prefix(hosts, 0) =~= fresh_counts(hosts));
    } else {
        let p = (t - 1) as nat;
        assert(selection_ops(t).drop_last() =~= selection_ops(p));
        lemma_busy_state(hosts, p);
        lemma_busy_pick(hosts, p as int);
        let before = busy_prefix(hosts, p as int);
        lemma_busy_count(hosts, p as int, p as int);
        assert(hosts.contains(hosts[p as int]));
        let after = busy_prefix(hosts, t as int);
        assert forall|h: Seq<char>| after.contains_key(h) implies after[h] == before.insert(
            hosts[p as int],
            1,
        )[h] by {
            if h != hosts[p as int] {
                if exists|j: int| 0 <= j < t && hosts[j] == h {
                    let j = choose|j: int| 0 <= j < t && hosts[j] == h;
                    assert(0 <= j < p && hosts[j] == h);
                }
            } else {
                assert(0 <= p < t && hosts[p as int] == h);
            }
        }
        assert(after =~= before.insert(hosts[p as int], 1));
    }
}

/// The indices picked by the first `t` selections from fresh counters over
/// distinct hosts are `0, 1, ..., t - 1`.
proof fn lemma_first_selections(hosts: Seq<Seq<char>>, t: nat)
    requires
        hosts.no_duplicates(),
        t <= hosts.len(),
    ensures
        selections(fresh_counts(hosts), hosts, t).len() == t,
        forall|k: int| 0 <= k < t ==> selections(fresh_counts(hosts), hosts, t)[k] == k,
    decreases t,
{
    if t > 0 {
        let p = (t - 1) as nat;
        lemma_first_selections(hosts, p);
        lemma_busy_state(hosts, p);
        lemma_busy_pick(hosts, p as int);
    }
}

/// On fresh counters over `n` distinct hosts, the first `n` selections, with
/// no release between them, pick `n` distinct workers: worker `t` at the
/// `t`-th selection.
pub proof fn least_connections_first_round_distinct(hosts: Seq<Seq<char>>)
    requires
        hosts.no_duplicates(),
    ensures
        selections(fresh_counts(hosts), hosts, hosts.len()).len() == hosts.len(),
        forall|t: int|
            0 <= t < hosts.len() ==> #[trigger] selections(fresh_counts(hosts), hosts, hosts.len())[t]
                == t,
        forall|a: int, b: int|
            0 <= a < b < hosts.len() ==> hosts[selections(fresh_counts(hosts), hosts, hosts.len())[a]]
                != hosts[selections(fresh_counts(hosts), hosts, hosts.len())[b]],
{
    lemma_first_selections(hosts, hosts.len());
}

/// Every counter of `m` is non-negative.
pub open spec fn all_nonnegative(m: Map<Seq<char>, int>) -> bool {
    forall|h: Seq<char>| m.contains_key(h) ==> m[h] >= 0
}

/// Outstanding-request counters, one per host.
pub struct ConnectionTable {
    entries: Vec<(String, i32)>,
}

impl View for ConnectionTable {
    type V = Map<Seq<char>, int>;

    /// The counters, keyed by host.
    closed spec fn view(&self) -> Map<Seq<char>, int> {
        Map::new(
            |h: Seq<char>| exists|i: int| self.has_entry_at(h, i),
            |h: Seq<char>| self.entries@[choose|i: int| self.has_entry_at(h, i)].1 as int,
        )
    }
}

impl ConnectionTable {
    #[verifier::type_invariant]
    spec fn well_formed(&self) -> bool {
        &&& forall|i: int, j: int|
            0 <= i < j < self.entries@.len() ==> self.entries@[i].0@ != self.entries@[j].0@
        &&& forall|i: int| 0 <= i < self.entries@.len() ==> self.entries@[i].1 >= 0
    }

    spec fn has_entry_at(&self, host: Seq<char>, i: int) -> bool {
        0 <= i < self.entries@.len() && self.entries@[i].0@ == host
    }

    proof fn lemma_entry(&self, i: int)
        requires
            self.well_formed(),
            0 <= i < self.entries@.len(),
        ensures
            self.view().contains_key(self.entries@[i].0@),
            self.view()[self.entries@[i].0@] == self.entries@[i].1,
    {
        let h = self.entries@[i].0@;
        assert(self.has_entry_at(h, i));
        let k = choose|k: int| self.has_entry_at(h, k);
        assert(k == i);
    }

    proof fn lemma_nonnegative(&self)
        requires
            self.well_formed(),
        ensures
            all_nonnegative(self.view()),
    {
        assert forall|h: Seq<char>| self.view().contains_key(h) implies self.view()[h] >= 0 by {
            let i = choose|i: int| self.has_entry_at(h, i);
            self.lemma_entry(i);
        }
    }

    proof fn lemma_update(old_table: &Self, new_table: &Self, i: int, c: int)
        requires
            old_table.well_formed(),
            new_table.well_formed(),
            0 <= i < old_table.entries@.len(),
            new_table.entries@.len() == old_table.entries@.len(),
            new_table.entries@[i].0@ == old_table.entries@[i].0@,
            new_table.entries@[i].1 == c,
            forall|k: int|
                0 <= k < old_table.entries@.len() && k != i ==> new_table.entries@[k]
                    == old_table.entries@[k],
        ensures
            new_table.view() == old_table.view().insert(old_table.entries@[i].0@, c),
    {
        let target = old_table.view().insert(old_table.entries@[i].0@, c);
        assert forall|h: Seq<char>| new_table.view().contains_key(h) == target.contains_key(h) by {
            if new_table.view().contains_key(h) {
                let k = choose|k: int| new_table.has_entry_at(h, k);
                assert(old_table.has_entry_at(h, k));
            }
            if old_table.view().contains_key(h) {
                let k = choose|k: int| old_table.has_entry_at(h, k);
                assert(new_table.has_entry_at(h, k));
            }
            if h == old_table.entries@[i].0@ {
                assert(new_table.has_entry_at(h, i));
            }
        }
        assert forall|h: Seq<char>| #[trigger]
            new_table.view().contains_key(h) implies new_table.view()[h] == target[h] by {
            let k = choose|k: int| new_table.has_entry_at(h, k);
            new_table.lemma_entry(k);
            if k != i {
                assert(old_table.has_entry_at(h, k));
                old_table.lemma_entry(k);
            }
        }
        assert(new_table.view() =~= target);
    }

    proof fn lemma_push(old_table: &Self, new_table: &Self, host: Seq<char>)
        requires
            old_table.well_formed(),
            new_table.well_formed(),
            new_table.entries@.len() == old_table.entries@.len() + 1,
            new_table.entries@.last().0@ == host,
            new_table.entries@.last().1 == 0,
            forall|k: int|
                0 <= k < old_table.entries@.len() ==> new_table.entries@[k]
                    == old_table.entries@[k],
        ensures
            new_table.view() == old_table.view().insert(host, 0),
    {
        let n = old_table.entries@.len() as int;
        let target = old_table.view().insert(host, 0);
        assert forall|h: Seq<char>| new_table.view().contains_key(h) == target.contains_key(h) by {
            if new_table.view().contains_key(h) {
                let k = choose|k: int| new_table.has_entry_at(h, k);
                if k < n {
                    assert(old_table.has_entry_at(h, k));
                }
            }
            if old_table.view().contains_key(h) {
                let k = choose|k: int| old_table.has_entry_at(h, k);
                assert(new_table.has_entry_at(h, k));
            }
            if h == host {
                assert(new_table.has_entry_at(h, n));
            }
        }
        assert forall|h: Seq<char>| #[trigger]
            new_table.view().contains_key(h) implies new_table.view()[h] == target[h] by {
            let k = choose|k: int| new_table.has_entry_at(h, k);
            new_table.lemma_entry(k);
            if k < n {
                assert(old_table.has_entry_at(h, k));
                old_table.lemma_entry(k);
            }
        }
        assert(new_table.view() =~= target);
    }

    /// An empty table.
    pub fn new() -> (r: Self)
        ensures
            r.view() == Map::<Seq<char>, int>::empty(),
    {
        let r = ConnectionTable { entries: Vec::new() };
        assert(r.view() =~= Map::<Seq<char>, int>::empty());
        r
    }

    fn find(&self, host: &String) -> (r: Option<usize>)
        ensures
            match r {
                Some(i) => self.has_entry_at(host@, i as int),
                None => !self.view().contains_key(host@) && forall|k: int|
                    0 <= k < self.entries@.len() ==> self.entries@[k].0@ != host@,
            },
    {
        let mut i: usize = 0;
        while i < self.entries.len()
            invariant
                i <= self.entries@.len(),
                forall|k: int| 0 <= k < i ==> self.entries@[k].0@ != host@,
            decreases self.entries@.len() - i,
        {
            if self.entries[i].0 == *host {
                return Some(i);
            }
            i = i + 1;
        }
        None
    }

    /// The outstanding-request count of `host`, 0 for a host without an entry.
    pub fn connections(&self, host: &String) -> (r: i32)
        ensures
            r as int == count_of(self.view(), host@),
            r >= 0,
    {
        proof {
            use_type_invariant(self);
        }
        match self.find(host) {
            Some(i) => {
                proof {
                    self.lemma_entry(i as int);
                }
                self.entries[i].1
            },
            None => 0,
        }
    }
    fn set_count(&mut self, i: usize, c: i32)
        requires
            i < old(self).entries@.len(),
            c >= 0,
        ensures
            final(self).view() == old(self).view().insert(old(self).entries@[i as int].0@, c as int),
    {
        proof {
            use_type_invariant(&*self);
        }
        let mut entries: Vec<(String, i32)> = Vec::new();
        std::mem::swap(&mut entries, &mut self.entries);
        let host = entries[i].0.clone();
        entries.set(i, (host, c));
        self.entries = entries;
        proof {
            use_type_invariant(&*self);
            Self::lemma_update(old(self), &*self, i as int, c as int);
        }
    }

    /// Gives `host` an idle counter where it has none.
    pub fn track(&mut self, host: &String)
        ensures
            final(self).view() == after_track(old(self).view(), host@),
            all_nonnegative(final(self).view()),
    {
        proof {
            use_type_invariant(&*self);
        }
        if self.find(host).is_none() {
            let mut entries: Vec<(String, i32)> = Vec::new();
            std::mem::swap(&mut entries, &mut self.entries);
            entries.push((host.clone(), 0));
            assert(forall|k: int|
                0 <= k < entries@.len() - 1 ==> entries@[k].0@ != entries@.last().0@);
            self.entries = entries;
            proof {
                use_type_invariant(&*self);
                Self::lemma_push(old(self), &*self, host@);
            }
        }
        proof {
            use_type_invariant(&*self);
            self.lemma_nonnegative();
        }
    }

    /// Counts one more request to `host`, if it has a counter.
    pub fn increment(&mut self, host: &String)
        ensures
            final(self).view() == after_increment(old(self).view(), host@),
            all_nonnegative(final(self).view()),
    {
        proof {
            use_type_invariant(&*self);
        }
        if let Some(i) = self.find(host) {
            proof {
                self.lemma_entry(i as int);
            }
            let c = self.entries[i].1;
            if c < i32::MAX {
                self.set_count(i, c + 1);
            }
        }
        proof {
            use_type_invariant(&*self);
            self.lemma_nonnegative();
        }
    }

    /// Counts one request to `host` as over: a positive counter goes down by
    /// one, anything else is left alone.
    pub fn decrement(&mut self, host: &String)
        ensures
            final(self).view() == after_release(old(self).view(), host@),
            all_nonnegative(final(self).view()),
    {
        proof {
            use_type_invariant(&*self);
        }
        if let Some(i) = self.find(host) {
            proof {
                self.lemma_entry(i as int);
            }
            let c = self.entries[i].1;
            if c > 0 {
                self.set_count(i, c - 1);
            }
        }
        proof {
            use_type_invariant(&*self);
            self.lemma_nonnegative();
        }
    }
    /// The first index of `workers` whose host has the fewest outstanding
    /// requests.
    pub fn least_loaded(&self, workers: &[Worker]) -> (r: usize)
        requires
            workers@.len() > 0,
        ensures
            is_least_loaded(self.view(), hosts_of(workers@), r as int),
    {
        let ghost hosts = hosts_of(workers@);
        let mut best: usize = 0;
        let mut best_count = self.connections(&workers[0].host);
        let mut i: usize = 1;
        while i < workers.len()
            invariant
                hosts == hosts_of(workers@),
                1 <= i <= workers@.len(),
                best < i,
                best_count as int == count_of(self.view(), hosts[best as int]),
                forall|j: int| 0 <= j < i ==> best_count <= count_of(self.view(), hosts[j]),
                forall|j: int| 0 <= j < best ==> best_count < count_of(self.view(), hosts[j]),
            decreases workers@.len() - i,
        {
            let c = self.connections(&workers[i].host);
            if c < best_count {
                best = i;
                best_count = c;
            }
            i = i + 1;
        }
        best
    }

    /// The first index of `hosts` with the fewest outstanding requests.
    pub fn least_loaded_host(&self, hosts: &Vec<String>) -> (r: usize)
        requires
            hosts@.len() > 0,
        ensures
            is_least_loaded(self.view(), host_views(hosts@), r as int),
    {
        let ghost views = host_views(hosts@);
        let mut best: usize = 0;
        let mut best_count = self.connections(&hosts[0]);
        let mut i: usize = 1;
        while i < hosts.len()
            invariant
                views == host_views(hosts@),
                1 <= i <= hosts@.len(),
                best < i,
                best_count as int == count_of(self.view(), views[best as int]),
                forall|j: int| 0 <= j < i ==> best_count <= count_of(self.view(), views[j]),
                forall|j: int| 0 <= j < best ==> best_count < count_of(self.view(), views[j]),
            decreases hosts@.len() - i,
        {
            let c = self.connections(&hosts[i]);
            if c < best_count {
                best = i;
                best_count = c;
            }
            i = i + 1;
        }
        best
    }
}

/// Least-connections selection over a list of host strings, which tracks
/// each host from the first time it is offered.
pub struct LeastConnections {
    connection_map: ConnectionTable,
}

impl View for LeastConnections {
    type V = Map<Seq<char>, int>;

    /// The counters, keyed by host.
    closed spec fn view(&self) -> Map<Seq<char>, int> {
        self.connection_map@
    }
}

impl LeastConnections {
    /// A tracker that knows no host yet.
    pub fn new() -> (r: Self)
        ensures
            r@ == Map::<Seq<char>, int>::empty(),
    {
        Self { connection_map: ConnectionTable::new() }
    }

    /// Picks the first of `workers` with the fewest outstanding requests and
    /// counts one more request to it; `None` when `workers` is empty.
    pub fn choose_worker<'a>(&mut self, workers: &'a Vec<String>) -> (r: Option<&'a String>)
        ensures
            workers@.len() == 0 ==> r.is_none() && final(self)@ == old(self)@,
            workers@.len() > 0 ==> exists|i: int|
                #[trigger] is_least_loaded(old(self)@, host_views(workers@), i) && r == Some(
                    &workers@[i],
                ) && final(self)@ == after_increment(
                    after_track(old(self)@, workers@[i]@),
                    workers@[i]@,
                ),
            all_nonnegative(final(self)@),
    {
        if workers.len() == 0 {
            proof {
                use_type_invariant(&self.connection_map);
                self.connection_map.lemma_nonnegative();
            }
            return None;
        }
        let ghost before = self@;
        let i = self.connection_map.least_loaded_host(workers);
        let host = &workers[i];
        self.connection_map.track(host);
        self.connection_map.increment(host);
        proof {
            assert(host_views(workers@)[i as int] == workers@[i as int]@);
            assert(is_least_loaded(before, host_views(workers@), i as int));
        }
        Some(host)
    }

    /// The outstanding-request count of `host`, 0 for a host not seen yet.
    pub fn connections(&self, host: &String) -> (r: i32)
        ensures
            r as int == count_of(self@, host@),
    {
        self.connection_map.connections(host)
    }
}

} // verus!
