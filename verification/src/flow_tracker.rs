//! The table of active flows: counters per flow, a bound on the number of
//! flows with first-in first-out eviction, and expiry of idle flows.

use vstd::prelude::*;

use crate::clock::clock_secs;
use crate::types::{FlowKey, FlowValue};

verus! {

/// Most flows that are tracked at once; a new flow beyond it evicts the oldest.
pub const MAX_ACTIVE_FLOWS: usize = 5000;

/// A flow table entry.
pub type FlowEntry = (FlowKey, FlowValue);

/// No key occurs twice in `flows`.
pub open spec fn keys_distinct(flows: Seq<FlowEntry>) -> bool {
    forall|i: int, j: int|
        0 <= i < flows.len() && 0 <= j < flows.len() && i != j ==> #[trigger] flows[i].0
            != #[trigger] flows[j].0
}

/// `key` has an entry in `flows`.
pub open spec fn has_key(flows: Seq<FlowEntry>, key: FlowKey) -> bool {
    exists|i: int| 0 <= i < flows.len() && #[trigger] flows[i].0 == key
}

/// The index of `key`'s entry in `flows`.
pub open spec fn position_of(flows: Seq<FlowEntry>, key: FlowKey) -> Option<int> {
    if has_key(flows, key) {
        Some(choose|i: int| 0 <= i < flows.len() && #[trigger] flows[i].0 == key)
    } else {
        None
    }
}

/// The record of a flow seen for the first time at `now`.
pub open spec fn fresh_flow(
    app_id: String,
    app_name: String,
    sni: Option<String>,
    bytes: u64,
    packets: u64,
    now: u64,
) -> FlowValue {
    FlowValue {
        app_id,
        app_name,
        sni,
        domain: None,
        start_time: now,
        last_active: now,
        bytes_counter: bytes,
        packets,
    }
}

/// A known flow after more traffic at `now`.
pub open spec fn refreshed_flow(v: FlowValue, bytes: u64, packets: u64, now: u64) -> FlowValue {
    FlowValue {
        last_active: now,
        bytes_counter: (v.bytes_counter + bytes) as u64,
        packets: (v.packets + packets) as u64,
        ..v
    }
}

/// The counters of `key`'s entry, if any, can take `bytes` and `packets` more.
pub open spec fn can_absorb(flows: Seq<FlowEntry>, key: FlowKey, bytes: u64, packets: u64) -> bool {
    match position_of(flows, key) {
        Some(i) => flows[i].1.bytes_counter + bytes <= u64::MAX && flows[i].1.packets + packets
            <= u64::MAX,
        None => true,
    }
}

/// The table after traffic of `key` at `now`: a known flow is refreshed in
/// place; a new flow is appended, after the oldest entry is evicted when the
/// table is full.
pub open spec fn updated_flows(
    flows: Seq<FlowEntry>,
    key: FlowKey,
    app_id: String,
    app_name: String,
    sni: Option<String>,
    bytes: u64,
    packets: u64,
    now: u64,
) -> Seq<FlowEntry> {
    match position_of(flows, key) {
        Some(i) => flows.update(i, (key, refreshed_flow(flows[i].1, bytes, packets, now))),
        None => {
            let kept = if flows.len() >= MAX_ACTIVE_FLOWS {
                flows.drop_first()
            } else {
                flows
            };
            kept.push((key, fresh_flow(app_id, app_name, sni, bytes, packets, now)))
        },
    }
}

/// What traffic of flow `key` at clock reading `now` does to the table
/// `before`: it becomes `after` (see `updated_flows`).
pub open spec fn traffic_update_at(
    before: Seq<FlowEntry>,
    key: FlowKey,
    app_id: String,
    app_name: String,
    sni: Option<String>,
    bytes: u64,
    packets: u64,
    now: u64,
    after: Seq<FlowEntry>,
) -> bool {
    after == updated_flows(before, key, app_id, app_name, sni, bytes, packets, now)
}

/// The free `update_flow` and `FlowTracker::update_flow` change a table
/// alike: both are described by `traffic_update_at`, and under one clock
/// reading that description fixes the new table, so two updates of the same
/// table with the same traffic at the same reading leave the same table.
pub proof fn law_updates_agree(
    before: Seq<FlowEntry>,
    key: FlowKey,
    app_id: String,
    app_name: String,
    sni: Option<String>,
    bytes: u64,
    packets: u64,
    now: u64,
    after1: Seq<FlowEntry>,
    after2: Seq<FlowEntry>,
)
    requires
        traffic_update_at(before, key, app_id, app_name, sni, bytes, packets, now, after1),
        traffic_update_at(before, key, app_id, app_name, sni, bytes, packets, now, after2),
    ensures
        after1 == after2,
{
}

/// The flow has been idle for more than `timeout_secs` at `now`; a flow last
/// active after `now` has not been idle at all.
pub open spec fn is_expired(v: FlowValue, timeout_secs: u64, now: u64) -> bool {
    now - v.last_active > timeout_secs
}

/// Whether an entry is expired at `now` (see `is_expired`).
pub open spec fn expired_at(timeout_secs: u64, now: u64) -> spec_fn(FlowEntry) -> bool {
    |e: FlowEntry| is_expired(e.1, timeout_secs, now)
}

/// Whether an entry is not expired at `now`.
pub open spec fn alive_at(timeout_secs: u64, now: u64) -> spec_fn(FlowEntry) -> bool {
    |e: FlowEntry| !is_expired(e.1, timeout_secs, now)
}

proof fn lemma_position(flows: Seq<FlowEntry>, key: FlowKey, i: int)
    requires
        keys_distinct(flows),
        0 <= i < flows.len(),
        flows[i].0 == key,
    ensures
        position_of(flows, key) == Some(i),
{
    assert(has_key(flows, key));
    let j = choose|j: int| 0 <= j < flows.len() && #[trigger] flows[j].0 == key;
    assert(flows[j].0 == key);
    if j != i {
        assert(flows[i].0 != flows[j].0);
    }
}

proof fn lemma_filter_keeps_keys_distinct(flows: Seq<FlowEntry>, pred: spec_fn(FlowEntry) -> bool)
    requires
        keys_distinct(flows),
    ensures
        keys_distinct(flows.filter(pred)),
        flows.filter(pred).len() <= flows.len(),
        forall|k: FlowKey| #[trigger] has_key(flows.filter(pred), k) ==> has_key(flows, k),
    decreases flows.len(),
{
    reveal(Seq::filter);
    if flows.len() > 0 {
        let rest = flows.drop_last();
        assert forall|i: int, j: int|
            0 <= i < rest.len() && 0 <= j < rest.len() && i != j implies #[trigger] rest[i].0
            != #[trigger] rest[j].0 by {
            assert(flows[i].0 != flows[j].0);
        }
        lemma_filter_keeps_keys_distinct(rest, pred);
        let f = rest.filter(pred);
        let g = flows.filter(pred);
        assert(rest =~= flows.drop_last());
        if pred(flows.last()) {
            assert(g == f.push(flows.last()));
        } else {
            assert(g == f);
        }
        assert forall|k: FlowKey| has_key(g, k) implies has_key(flows, k) by {
            let i = choose|i: int| 0 <= i < g.len() && #[trigger] g[i].0 == k;
            if i < f.len() {
                assert(f[i].0 == k);
                assert(has_key(f, k));
                assert(has_key(rest, k));
                let j = choose|j: int| 0 <= j < rest.len() && #[trigger] rest[j].0 == k;
                assert(rest[j] == flows[j]);
                assert(flows[j].0 == k);
            } else {
                assert(flows[flows.len() - 1].0 == k);
            }
        }
        if pred(flows.last()) {
            assert forall|i: int, j: int|
                0 <= i < g.len() && 0 <= j < g.len() && i != j implies #[trigger] g[i].0
                != #[trigger] g[j].0 by {
                if i < f.len() && j < f.len() {
                    assert(f[i].0 != f[j].0);
                } else if i < f.len() {
                    if f[i].0 == flows.last().0 {
                        assert(has_key(f, f[i].0));
                        let m = choose|m: int| 0 <= m < rest.len() && #[trigger] rest[m].0 == f[i].0;
                        assert(rest[m] == flows[m]);
                        assert(flows[m].0 != flows[flows.len() - 1].0);
                    }
                } else if j < f.len() {
                    if f[j].0 == flows.last().0 {
                        assert(has_key(f, f[j].0));
                        let m = choose|m: int| 0 <= m < rest.len() && #[trigger] rest[m].0 == f[j].0;
                        assert(rest[m] == flows[m]);
                        assert(flows[m].0 != flows[flows.len() - 1].0);
                    }
                }
            }
        }
    }
}

/// The active flows, oldest first.
pub struct FlowTracker {
    flows: Vec<FlowEntry>,
}

impl View for FlowTracker {
    type V = Seq<FlowEntry>;

    closed spec fn view(&self) -> Seq<FlowEntry> {
        self.flows@
    }
}

impl FlowTracker {
    #[verifier::type_invariant]
    spec fn well_formed(self) -> bool {
        &&& keys_distinct(self.flows@)
        &&& self.flows@.len() <= MAX_ACTIVE_FLOWS
    }

    /// The table's bound and key uniqueness hold of every tracker.
    pub fn check_well_formed(&self)
        ensures
            keys_distinct(self@),
            self@.len() <= MAX_ACTIVE_FLOWS,
    {
        proof {
            use_type_invariant(self);
        }
    }

    /// An empty table.
    pub fn new() -> (r: Self)
        ensures
            r@ == Seq::<FlowEntry>::empty(),
    {
        FlowTracker { flows: Vec::new() }
    }

    fn find(&self, key: &FlowKey) -> (r: Option<usize>)
        ensures
            r matches Some(i) ==> i < self@.len() && position_of(self@, *key) == Some(i as int),
            r is None ==> position_of(self@, *key) is None,
    {
        proof {
            use_type_invariant(self);
        }
        let mut i: usize = 0;
        while i < self.flows.len()
            invariant
                i <= self.flows@.len(),
                keys_distinct(self.flows@),
                forall|j: int| 0 <= j < i ==> #[trigger] self.flows@[j].0 != *key,
            decreases self.flows@.len() - i,
        {
            if self.flows[i].0 == *key {
                proof {
                    lemma_position(self.flows@, *key, i as int);
                }
                return Some(i);
            }
            i = i + 1;
        }
        assert(!has_key(self@, *key));
        None
    }

    /// Records traffic of flow `key` at time `now`: a known flow gets `bytes`
    /// and `packets` added and `now` as its last activity; a new flow is added
    /// with the given application and server name, and when the table already
    /// holds `MAX_ACTIVE_FLOWS` flows the oldest one is evicted first.
    pub fn update_flow_at(
        &mut self,
        key: FlowKey,
        app_id: String,
        app_name: String,
        sni: Option<String>,
        bytes: u64,
        packets: u64,
        now: u64,
    )
        requires
            can_absorb(old(self)@, key, bytes, packets),
        ensures
            final(self)@ == updated_flows(
                old(self)@,
                key,
                app_id,
                app_name,
                sni,
                bytes,
                packets,
                now,
            ),
            keys_distinct(final(self)@),
            final(self)@.len() <= MAX_ACTIVE_FLOWS,
    {
        proof {
            use_type_invariant(&*self);
        }
        let found = self.find(&key);
        let mut flows: Vec<FlowEntry> = Vec::new();
        std::mem::swap(&mut flows, &mut self.flows);
        let ghost before = flows@;
        proof {
            lemma_updated_flows(before, key, app_id, app_name, sni, bytes, packets, now);
        }
        match found {
            Some(i) => {
                let current = &flows[i].1;
                let refreshed = FlowValue {
                    app_id: current.app_id.clone(),
                    app_name: current.app_name.clone(),
                    sni: crate::types::copy_opt_string(&current.sni),
                    domain: crate::types::copy_opt_string(&current.domain),
                    start_time: current.start_time,
                    last_active: now,
                    bytes_counter: current.bytes_counter + bytes,
                    packets: current.packets + packets,
                };
                flows.set(i, (key, refreshed));
            },
            None => {
                if flows.len() >= MAX_ACTIVE_FLOWS {
                    flows.remove(0);
                    assert(flows@ =~= before.drop_first());
                }
                flows.push(
                    (
                        key,
                        FlowValue {
                            app_id,
                            app_name,
                            sni,
                            domain: None,
                            start_time: now,
                            last_active: now,
                            bytes_counter: bytes,
                            packets,
                        },
                    ),
                );
            },
        }
        self.flows = flows;
    }

    /// Whether the counters of `key`'s flow, if tracked, can take `bytes` and
    /// `packets` more.
    pub fn can_absorb_traffic(&self, key: &FlowKey, bytes: u64, packets: u64) -> (r: bool)
        ensures
            r == can_absorb(self@, *key, bytes, packets),
    {
        match self.find(key) {
            Some(i) => {
                let v = &self.flows[i].1;
                v.bytes_counter <= u64::MAX - bytes && v.packets <= u64::MAX - packets
            },
            None => true,
        }
    }

    /// Records traffic of flow `key` at the current time (see `update_flow_at`);
    /// a clock before the epoch reads as 0.
    pub fn update_flow(
        &mut self,
        key: FlowKey,
        app_id: String,
        app_name: String,
        sni: Option<String>,
        bytes: u64,
        packets: u64,
    )
        requires
            can_absorb(old(self)@, key, bytes, packets),
        ensures
            exists|now: u64|
                traffic_update_at(old(self)@, key, app_id, app_name, sni, bytes, packets, now, final(self)@),
            final(self)@.len() <= MAX_ACTIVE_FLOWS,
    {
        let now = clock_secs();
        let ghost (id, name, server) = (app_id, app_name, sni);
        self.update_flow_at(key, app_id, app_name, sni, bytes, packets, now);
        assert(traffic_update_at(old(self)@, key, id, name, server, bytes, packets, now, self@));
    }

    /// The record of flow `key`, if it is tracked.
    pub fn get_flow(&self, key: &FlowKey) -> (r: Option<FlowValue>)
        ensures
            match position_of(self@, *key) {
                Some(i) => r == Some(self@[i].1),
                None => r is None,
            },
    {
        match self.find(key) {
            Some(i) => Some(self.flows[i].1.duplicate()),
            None => None,
        }
    }

    /// A copy of every entry, oldest first.
    pub fn get_all_flows(&self) -> (r: Vec<FlowEntry>)
        ensures
            r@ == self@,
    {
        let mut r: Vec<FlowEntry> = Vec::new();
        let mut i: usize = 0;
        while i < self.flows.len()
            invariant
                i <= self.flows@.len(),
                r@ == self.flows@.take(i as int),
            decreases self.flows@.len() - i,
        {
            r.push((self.flows[i].0, self.flows[i].1.duplicate()));
            i = i + 1;
            assert(r@ =~= self.flows@.take(i as int));
        }
        assert(self.flows@.take(self.flows@.len() as int) =~= self.flows@);
        r
    }

    /// Stops tracking flow `key` and gives back its record.
    pub fn remove_flow(&mut self, key: &FlowKey) -> (r: Option<FlowValue>)
        ensures
            match position_of(old(self)@, *key) {
                Some(i) => r == Some(old(self)@[i].1) && final(self)@ == old(self)@.remove(i),
                None => r is None && final(self)@ == old(self)@,
            },
            keys_distinct(final(self)@),
            final(self)@.len() <= MAX_ACTIVE_FLOWS,
    {
        proof {
            use_type_invariant(&*self);
        }
        match self.find(key) {
            Some(i) => {
                let mut flows: Vec<FlowEntry> = Vec::new();
                std::mem::swap(&mut flows, &mut self.flows);
                let ghost before = flows@;
                let (_, value) = flows.remove(i);
                assert forall|a: int, b: int|
                    0 <= a < flows@.len() && 0 <= b < flows@.len() && a != b implies #[trigger] flows@[a].0
                    != #[trigger] flows@[b].0 by {
                    let a0 = if a < i { a } else { a + 1 };
                    let b0 = if b < i { b } else { b + 1 };
                    assert(before[a0].0 != before[b0].0);
                }
                self.flows = flows;
                Some(value)
            },
            None => None,
        }
    }

    /// The flows idle for more than `timeout_secs` at `now`, oldest first; a
    /// flow last active after `now` is not idle.
    pub fn get_expired_flows_at(&self, timeout_secs: u64, now: u64) -> (r: Vec<FlowEntry>)
        ensures
            r@ == self@.filter(expired_at(timeout_secs, now)),
    {
        let mut r: Vec<FlowEntry> = Vec::new();
        let mut i: usize = 0;
        while i < self.flows.len()
            invariant
                i <= self.flows@.len(),
                r@ == self.flows@.take(i as int).filter(expired_at(timeout_secs, now)),
            decreases self.flows@.len() - i,
        {
            reveal(Seq::filter);
            let entry = &self.flows[i];
            assert(self.flows@.take(i + 1).drop_last() =~= self.flows@.take(i as int));
            if entry.1.last_active < now && now - entry.1.last_active > timeout_secs {
                r.push((entry.0, entry.1.duplicate()));
            }
            i = i + 1;
        }
        assert(self.flows@.take(self.flows@.len() as int) =~= self.flows@);
        r
    }

    /// The flows idle for more than `timeout_secs` now (see
    /// `get_expired_flows_at`); a clock before the epoch reads as 0.
    pub fn get_expired_flows(&self, timeout_secs: u64) -> (r: Vec<FlowEntry>)
        ensures
            exists|now: u64| r@ == self@.filter(expired_at(timeout_secs, now)),
    {
        let now = clock_secs();
        self.get_expired_flows_at(timeout_secs, now)
    }

    /// Removes the flows idle for more than `timeout_secs` at `now` and
    /// returns them, oldest first; the others stay in their order.
    pub fn remove_expired_at(&mut self, timeout_secs: u64, now: u64) -> (r: Vec<FlowEntry>)
        ensures
            r@ == old(self)@.filter(expired_at(timeout_secs, now)),
            final(self)@ == old(self)@.filter(alive_at(timeout_secs, now)),
            keys_distinct(final(self)@),
    {
        proof {
            use_type_invariant(&*self);
        }
        let mut kept: Vec<FlowEntry> = Vec::new();
        let mut removed: Vec<FlowEntry> = Vec::new();
        let mut i: usize = 0;
        while i < self.flows.len()
            invariant
                i <= self.flows@.len(),
                removed@ == self.flows@.take(i as int).filter(expired_at(timeout_secs, now)),
                kept@ == self.flows@.take(i as int).filter(alive_at(timeout_secs, now)),
            decreases self.flows@.len() - i,
        {
            reveal(Seq::filter);
            let entry = &self.flows[i];
            assert(self.flows@.take(i + 1).drop_last() =~= self.flows@.take(i as int));
            if entry.1.last_active < now && now - entry.1.last_active > timeout_secs {
                removed.push((entry.0, entry.1.duplicate()));
            } else {
                kept.push((entry.0, entry.1.duplicate()));
            }
            i = i + 1;
        }
        assert(self.flows@.take(self.flows@.len() as int) =~= self.flows@);
        proof {
            lemma_filter_keeps_keys_distinct(self.flows@, alive_at(timeout_secs, now));
        }
        self.flows = kept;
        removed
    }
}

impl Default for FlowTracker {
    fn default() -> (r: Self)
        ensures
            r@ == Seq::<FlowEntry>::empty(),
    {
        Self::new()
    }
}

/// Records traffic of flow `key` in `flows` at the current time (see
/// `FlowTracker::update_flow_at`).
pub fn update_flow(
    flows: &mut FlowTracker,
    key: FlowKey,
    app_id: String,
    app_name: String,
    sni: Option<String>,
    bytes: u64,
    packets: u64,
)
    requires
        can_absorb(old(flows)@, key, bytes, packets),
    ensures
        exists|now: u64|
            traffic_update_at(old(flows)@, key, app_id, app_name, sni, bytes, packets, now, final(flows)@),
        final(flows)@.len() <= MAX_ACTIVE_FLOWS,
{
    flows.update_flow(key, app_id, app_name, sni, bytes, packets);
}

/// What removing the expired flows at `now` does: `removed` are the flows
/// idle for more than `timeout_secs`, `after` the others, each oldest first.
pub open spec fn expiry_cleanup(
    before: Seq<FlowEntry>,
    timeout_secs: u64,
    now: u64,
    removed: Seq<FlowEntry>,
    after: Seq<FlowEntry>,
) -> bool {
    &&& removed == before.filter(expired_at(timeout_secs, now))
    &&& after == before.filter(alive_at(timeout_secs, now))
}

/// Removes the flows idle for more than `timeout_secs` at `now` and returns
/// them, oldest first.
pub fn cleanup_timeout_flows_at(flows: &mut FlowTracker, timeout_secs: u64, now: u64) -> (r: Vec<
    FlowEntry,
>)
    ensures
        expiry_cleanup(old(flows)@, timeout_secs, now, r@, final(flows)@),
        keys_distinct(final(flows)@),
{
    flows.remove_expired_at(timeout_secs, now)
}

/// Removes the flows that have been idle for more than `timeout_secs` now and
/// returns them, oldest first (see `cleanup_timeout_flows_at`); a clock before
/// the epoch reads as 0.
pub fn cleanup_timeout_flows(flows: &mut FlowTracker, timeout_secs: u64) -> (r: Vec<FlowEntry>)
    ensures
        exists|now: u64| expiry_cleanup(old(flows)@, timeout_secs, now, r@, final(flows)@),
        keys_distinct(final(flows)@),
{
    let now = clock_secs();
    cleanup_timeout_flows_at(flows, timeout_secs, now)
}

proof fn lemma_updated_flows(
    flows: Seq<FlowEntry>,
    key: FlowKey,
    app_id: String,
    app_name: String,
    sni: Option<String>,
    bytes: u64,
    packets: u64,
    now: u64,
) -> (idx: int)
    requires
        keys_distinct(flows),
        flows.len() <= MAX_ACTIVE_FLOWS,
    ensures
        keys_distinct(updated_flows(flows, key, app_id, app_name, sni, bytes, packets, now)),
        updated_flows(flows, key, app_id, app_name, sni, bytes, packets, now).len()
            <= MAX_ACTIVE_FLOWS,
        position_of(updated_flows(flows, key, app_id, app_name, sni, bytes, packets, now), key)
            == Some(idx),
        0 <= idx < updated_flows(flows, key, app_id, app_name, sni, bytes, packets, now).len(),
        updated_flows(flows, key, app_id, app_name, sni, bytes, packets, now)[idx].1 == match position_of(
            flows,
            key,
        ) {
            Some(i) => refreshed_flow(flows[i].1, bytes, packets, now),
            None => fresh_flow(app_id, app_name, sni, bytes, packets, now),
        },
{
    let u = updated_flows(flows, key, app_id, app_name, sni, bytes, packets, now);
    match position_of(flows, key) {
        Some(i) => {
            assert(0 <= i < flows.len() && flows[i].0 == key);
            assert forall|a: int, b: int|
                0 <= a < u.len() && 0 <= b < u.len() && a != b implies #[trigger] u[a].0
                != #[trigger] u[b].0 by {
                assert(flows[a].0 != flows[b].0);
            }
            lemma_position(u, key, i);
            i
        },
        None => {
            let kept = if flows.len() >= MAX_ACTIVE_FLOWS {
                flows.drop_first()
            } else {
                flows
            };
            assert forall|j: int| 0 <= j < kept.len() implies #[trigger] kept[j].0 != key by {
                if flows.len() >= MAX_ACTIVE_FLOWS {
                    assert(kept[j] == flows[j + 1]);
                    assert(!(flows[j + 1].0 == key));
                } else {
                    assert(!(flows[j].0 == key));
                }
            }
            assert forall|a: int, b: int|
                0 <= a < u.len() && 0 <= b < u.len() && a != b implies #[trigger] u[a].0
                != #[trigger] u[b].0 by {
                if a < kept.len() && b < kept.len() {
                    if flows.len() >= MAX_ACTIVE_FLOWS {
                        assert(flows[a + 1].0 != flows[b + 1].0);
                    } else {
                        assert(flows[a].0 != flows[b].0);
                    }
                } else if a < kept.len() {
                    assert(kept[a].0 != key);
                } else {
                    assert(kept[b].0 != key);
                }
            }
            lemma_position(u, key, kept.len() as int);
            kept.len() as int
        },
    }
}

/// A read gives back what an update wrote: after traffic of `key` at `now`,
/// the table holds `key` with its record refreshed (a known flow) or freshly
/// created (a new flow), the keys stay distinct and the table stays within
/// `MAX_ACTIVE_FLOWS`.
pub proof fn law_update_then_get(
    flows: Seq<FlowEntry>,
    key: FlowKey,
    app_id: String,
    app_name: String,
    sni: Option<String>,
    bytes: u64,
    packets: u64,
    now: u64,
)
    requires
        keys_distinct(flows),
        flows.len() <= MAX_ACTIVE_FLOWS,
    ensures
        ({
            let after = updated_flows(flows, key, app_id, app_name, sni, bytes, packets, now);
            &&& keys_distinct(after)
            &&& after.len() <= MAX_ACTIVE_FLOWS
            &&& position_of(after, key) matches Some(j) && after[j].1 == match position_of(
                flows,
                key,
            ) {
                Some(i) => refreshed_flow(flows[i].1, bytes, packets, now),
                None => fresh_flow(app_id, app_name, sni, bytes, packets, now),
            }
        }),
{
    lemma_updated_flows(flows, key, app_id, app_name, sni, bytes, packets, now);
}

/// Eviction is first in, first out: traffic of a new flow in a full table
/// evicts exactly the oldest entry; every other flow keeps its record, and
/// when the table is not full, or the flow is known, no flow is lost.
pub proof fn law_fifo_eviction(
    flows: Seq<FlowEntry>,
    key: FlowKey,
    app_id: String,
    app_name: String,
    sni: Option<String>,
    bytes: u64,
    packets: u64,
    now: u64,
    other: FlowKey,
)
    requires
        keys_distinct(flows),
        flows.len() <= MAX_ACTIVE_FLOWS,
        other != key,
    ensures
        ({
            let after = updated_flows(flows, key, app_id, app_name, sni, bytes, packets, now);
            let evicts = !has_key(flows, key) && flows.len() == MAX_ACTIVE_FLOWS;
            &&& evicts ==> !has_key(after, flows[0].0)
            &&& (has_key(flows, other) && !(evicts && flows[0].0 == other)) ==> (position_of(
                after,
                other,
            ) matches Some(j) && position_of(flows, other) matches Some(i) && after[j]
                == flows[i])
            &&& !has_key(flows, other) ==> !has_key(after, other)
        }),
{
    let after = updated_flows(flows, key, app_id, app_name, sni, bytes, packets, now);
    lemma_updated_flows(flows, key, app_id, app_name, sni, bytes, packets, now);
    let evicts = !has_key(flows, key) && flows.len() == MAX_ACTIVE_FLOWS;
    if evicts {
        if has_key(after, flows[0].0) {
            let j = choose|j: int| 0 <= j < after.len() && #[trigger] after[j].0 == flows[0].0;
            if j < after.len() - 1 {
                assert(after[j] == flows[j + 1]);
                assert(flows[j + 1].0 != flows[0].0);
            } else {
                assert(after[j].0 == key);
                assert(flows[0].0 == key);
            }
        }
    }
    if has_key(flows, other) && !(evicts && flows[0].0 == other) {
        let i = choose|i: int| 0 <= i < flows.len() && #[trigger] flows[i].0 == other;
        lemma_position(flows, other, i);
        match position_of(flows, key) {
            Some(k) => {
                assert(k != i);
                lemma_position(after, other, i);
            },
            None => {
                if flows.len() >= MAX_ACTIVE_FLOWS {
                    assert(i != 0);
                    assert(after[i - 1] == flows[i]);
                    lemma_position(after, other, i - 1);
                } else {
                    assert(after[i] == flows[i]);
                    lemma_position(after, other, i);
                }
            },
        }
    }
    if !has_key(flows, other) && has_key(after, other) {
        let j = choose|j: int| 0 <= j < after.len() && #[trigger] after[j].0 == other;
        match position_of(flows, key) {
            Some(k) => {
                assert(after[j].0 == flows[j].0);
            },
            None => {
                if j < after.len() - 1 {
                    if flows.len() >= MAX_ACTIVE_FLOWS {
                        assert(after[j] == flows[j + 1]);
                    } else {
                        assert(after[j] == flows[j]);
                    }
                }
            },
        }
    }
}

/// A removed flow is gone: after `remove_flow`, the table no longer holds
/// the key, and the other flows keep their order.
pub proof fn law_remove_then_get(flows: Seq<FlowEntry>, key: FlowKey)
    requires
        keys_distinct(flows),
    ensures
        match position_of(flows, key) {
            Some(i) => position_of(flows.remove(i), key) is None,
            None => position_of(flows, key) is None,
        },
{
    if let Some(i) = position_of(flows, key) {
        let after = flows.remove(i);
        if has_key(after, key) {
            let j = choose|j: int| 0 <= j < after.len() && #[trigger] after[j].0 == key;
            let j0 = if j < i { j } else { j + 1 };
            assert(after[j] == flows[j0]);
            assert(flows[j0].0 != flows[i].0);
        }
    }
}

/// Removing undoes adding: when a new flow enters a table that is not full,
/// removing that flow again gives back the table as it was.
pub proof fn law_remove_undoes_new_flow(
    flows: Seq<FlowEntry>,
    key: FlowKey,
    app_id: String,
    app_name: String,
    sni: Option<String>,
    bytes: u64,
    packets: u64,
    now: u64,
)
    requires
        keys_distinct(flows),
        flows.len() < MAX_ACTIVE_FLOWS,
        !has_key(flows, key),
    ensures
        ({
            let after = updated_flows(flows, key, app_id, app_name, sni, bytes, packets, now);
            position_of(after, key) matches Some(j) && after.remove(j) == flows
        }),
{
    let after = updated_flows(flows, key, app_id, app_name, sni, bytes, packets, now);
    let j = lemma_updated_flows(flows, key, app_id, app_name, sni, bytes, packets, now);
    lemma_position(after, key, flows.len() as int);
    assert(after.remove(j) =~= flows);
}

/// Expiry splits the table: every removed flow is expired, every kept flow
/// is not, and together they are the whole table, with no flow lost.
pub proof fn law_expiry_partition(flows: Seq<FlowEntry>, timeout_secs: u64, now: u64)
    ensures
        ({
            let removed = flows.filter(expired_at(timeout_secs, now));
            let kept = flows.filter(alive_at(timeout_secs, now));
            &&& forall|i: int| 0 <= i < removed.len() ==> is_expired(#[trigger] removed[i].1, timeout_secs, now)
            &&& forall|i: int| 0 <= i < kept.len() ==> !is_expired(#[trigger] kept[i].1, timeout_secs, now)
            &&& removed.len() + kept.len() == flows.len()
            &&& forall|i: int| 0 <= i < flows.len() ==> (#[trigger] removed.contains(flows[i])
                || kept.contains(flows[i]))
        }),
    decreases flows.len(),
{
    reveal(Seq::filter);
    let removed = flows.filter(expired_at(timeout_secs, now));
    let kept = flows.filter(alive_at(timeout_secs, now));
    if flows.len() > 0 {
        let rest = flows.drop_last();
        law_expiry_partition(rest, timeout_secs, now);
        let r0 = rest.filter(expired_at(timeout_secs, now));
        let k0 = rest.filter(alive_at(timeout_secs, now));
        let last = flows.last();
        if is_expired(last.1, timeout_secs, now) {
            assert(removed == r0.push(last));
            assert(kept == k0);
        } else {
            assert(removed == r0);
            assert(kept == k0.push(last));
        }
        assert forall|i: int| 0 <= i < flows.len() implies (#[trigger] removed.contains(flows[i])
            || kept.contains(flows[i])) by {
            if i < flows.len() - 1 {
                assert(flows[i] == rest[i]);
                if r0.contains(rest[i]) {
                    let m = choose|m: int| 0 <= m < r0.len() && r0[m] == rest[i];
                    assert(removed[m] == r0[m]);
                } else {
                    assert(k0.contains(rest[i]));
                    let m = choose|m: int| 0 <= m < k0.len() && k0[m] == rest[i];
                    assert(kept[m] == k0[m]);
                }
            } else {
                if is_expired(last.1, timeout_secs, now) {
                    assert(removed[removed.len() - 1] == last);
                } else {
                    assert(kept[kept.len() - 1] == last);
                }
            }
        }
    }
}

/// Idleness is measured from the last activity alone: a flow is expired at
/// `now` exactly when more than `timeout_secs` seconds separate `now` from its
/// last activity, whatever its start time.
pub proof fn law_expiry_from_last_activity(v: FlowValue, timeout_secs: u64, now: u64, start: u64)
    ensures
        is_expired(v, timeout_secs, now) <==> now > v.last_active + timeout_secs,
        is_expired(v, timeout_secs, now) == is_expired(
            FlowValue { start_time: start, ..v },
            timeout_secs,
            now,
        ),
{
}

/// Traffic keeps a flow alive: after traffic of `key` at time `a`, no entry
/// of `key` is expired at any reading up to `a + timeout_secs`, however long
/// ago the flow started, and every other flow keeps its state of expiry.
pub proof fn law_traffic_keeps_flow_alive(
    flows: Seq<FlowEntry>,
    key: FlowKey,
    app_id: String,
    app_name: String,
    sni: Option<String>,
    bytes: u64,
    packets: u64,
    a: u64,
    timeout_secs: u64,
    now: u64,
)
    requires
        keys_distinct(flows),
        flows.len() <= MAX_ACTIVE_FLOWS,
        now <= a + timeout_secs,
    ensures
        ({
            let after = updated_flows(flows, key, app_id, app_name, sni, bytes, packets, a);
            &&& position_of(after, key) matches Some(j) && !is_expired(
                after[j].1,
                timeout_secs,
                now,
            )
            &&& forall|i: int|
                0 <= i < after.len() && #[trigger] after[i].0 == key ==> !is_expired(
                    after[i].1,
                    timeout_secs,
                    now,
                )
            &&& forall|e: FlowEntry|
                after.filter(expired_at(timeout_secs, now)).contains(e) ==> e.0 != key
        }),
{
    let after = updated_flows(flows, key, app_id, app_name, sni, bytes, packets, a);
    let j = lemma_updated_flows(flows, key, app_id, app_name, sni, bytes, packets, a);
    assert(after[j].1.last_active == a);
    assert forall|i: int|
        0 <= i < after.len() && #[trigger] after[i].0 == key implies !is_expired(
            after[i].1,
            timeout_secs,
            now,
        ) by {
        if i != j {
            assert(after[i].0 != after[j].0);
        }
    }
    assert forall|e: FlowEntry| after.filter(expired_at(timeout_secs, now)).contains(e) implies e.0
        != key by {
        lemma_filter_members(after, expired_at(timeout_secs, now), e);
        let i = choose|i: int| 0 <= i < after.len() && after[i] == e;
        if e.0 == key {
            assert(after[i].0 == key);
        }
    }
}

proof fn lemma_filter_members(s: Seq<FlowEntry>, pred: spec_fn(FlowEntry) -> bool, e: FlowEntry)
    requires
        s.filter(pred).contains(e),
    ensures
        pred(e),
        exists|i: int| 0 <= i < s.len() && s[i] == e,
    decreases s.len(),
{
    reveal(Seq::filter);
    if s.len() > 0 {
        let rest = s.drop_last();
        if pred(s.last()) && e == s.last() {
            assert(s[s.len() - 1] == e);
        } else {
            if pred(s.last()) {
                let f = rest.filter(pred);
                assert(s.filter(pred) == f.push(s.last()));
                let m = choose|m: int| 0 <= m < s.filter(pred).len() && s.filter(pred)[m] == e;
                assert(m < f.len());
                assert(f[m] == e);
                assert(f.contains(e));
            } else {
                assert(s.filter(pred) == rest.filter(pred));
            }
            lemma_filter_members(rest, pred, e);
            let i = choose|i: int| 0 <= i < rest.len() && rest[i] == e;
            assert(s[i] == e);
        }
    }
}

} // verus!
