//! Per-day history: the time and bytes of finished flows, summed per source
//! address, application and day.

use vstd::prelude::*;

use crate::clock::today_date;
use crate::types::{FlowKey, FlowValue, HistoryKey, HistoryValue};

verus! {

/// A history entry.
pub type HistoryEntry = (HistoryKey, HistoryValue);

/// What identifies an entry: source address, application id and day.
pub type HistoryId = (u32, Seq<char>, Seq<char>);

/// No two entries share an identity.
pub open spec fn ids_distinct(entries: Seq<HistoryEntry>) -> bool {
    forall|i: int, j: int|
        0 <= i < entries.len() && 0 <= j < entries.len() && i != j ==> #[trigger] entries[i].0@
            != #[trigger] entries[j].0@
}

/// Some entry has identity `id`.
pub open spec fn has_id(entries: Seq<HistoryEntry>, id: HistoryId) -> bool {
    exists|i: int| 0 <= i < entries.len() && #[trigger] entries[i].0@ == id
}

/// The index of the entry with identity `id`.
pub open spec fn index_of(entries: Seq<HistoryEntry>, id: HistoryId) -> Option<int> {
    if has_id(entries, id) {
        Some(choose|i: int| 0 <= i < entries.len() && #[trigger] entries[i].0@ == id)
    } else {
        None
    }
}

/// The history as a map from identity to accumulated activity.
pub open spec fn history_map(entries: Seq<HistoryEntry>) -> Map<HistoryId, HistoryValue> {
    Map::new(
        |id: HistoryId| has_id(entries, id),
        |id: HistoryId|
            entries[choose|i: int| 0 <= i < entries.len() && #[trigger] entries[i].0@ == id].1,
    )
}

/// How long a flow was active, in seconds.
pub open spec fn flow_duration(v: FlowValue) -> int {
    v.last_active - v.start_time
}

/// The identity under which a flow is recorded on `date`.
pub open spec fn flow_history_id(key: FlowKey, value: FlowValue, date: Seq<char>) -> HistoryId {
    (key.src_ip, value.app_id@, date)
}

/// `v` plus the activity of a flow.
pub open spec fn add_activity(v: HistoryValue, duration: int, bytes: int) -> HistoryValue {
    HistoryValue {
        total_duration: (v.total_duration + duration) as u64,
        total_bytes: (v.total_bytes + bytes) as u64,
    }
}

/// The flow can be recorded: it did not end before it started, and the
/// entry it adds to can take its duration and bytes.
pub open spec fn can_record(
    entries: Seq<HistoryEntry>,
    key: FlowKey,
    value: FlowValue,
    date: Seq<char>,
) -> bool {
    &&& value.start_time <= value.last_active
    &&& match index_of(entries, flow_history_id(key, value, date)) {
        Some(i) => entries[i].1.total_duration + flow_duration(value) <= u64::MAX
            && entries[i].1.total_bytes + value.bytes_counter <= u64::MAX,
        None => true,
    }
}

/// The history after recording a flow under the entry `new_key` identifies:
/// the entry gets the flow's duration and bytes added, or is created with them.
pub open spec fn recorded(
    entries: Seq<HistoryEntry>,
    new_key: HistoryKey,
    value: FlowValue,
) -> Seq<HistoryEntry> {
    match index_of(entries, new_key@) {
        Some(i) => entries.update(
            i,
            (entries[i].0, add_activity(entries[i].1, flow_duration(value), value.bytes_counter as int)),
        ),
        None => entries.push(
            (
                new_key,
                HistoryValue {
                    total_duration: flow_duration(value) as u64,
                    total_bytes: value.bytes_counter,
                },
            ),
        ),
    }
}

/// What recording a flow under `date` does: when it can be recorded it is,
/// and `done` is true; otherwise the history stays as it is and `done` is false.
pub open spec fn aggregation_outcome(
    before: Seq<HistoryEntry>,
    key: FlowKey,
    value: FlowValue,
    date: String,
    done: bool,
    after: Seq<HistoryEntry>,
) -> bool {
    if can_record(before, key, value, date@) {
        done && after == recorded(
            before,
            HistoryKey { src_ip: key.src_ip, app_id: value.app_id, date },
            value,
        )
    } else {
        !done && after == before
    }
}

/// The values of the entries of `src_ip` on `date`, in history order.
pub open spec fn daily_values(entries: Seq<HistoryEntry>, src_ip: u32, date: Seq<char>) -> Seq<
    HistoryValue,
>
    decreases entries.len(),
{
    if entries.len() == 0 {
        Seq::empty()
    } else {
        let rest = daily_values(entries.drop_last(), src_ip, date);
        let e = entries.last();
        if e.0.src_ip == src_ip && e.0.date@ == date {
            rest.push(e.1)
        } else {
            rest
        }
    }
}

/// The entries of `date` keyed by source address and application, in history order.
pub open spec fn date_entries(entries: Seq<HistoryEntry>, date: Seq<char>) -> Seq<
    ((u32, String), HistoryValue),
>
    decreases entries.len(),
{
    if entries.len() == 0 {
        Seq::empty()
    } else {
        let rest = date_entries(entries.drop_last(), date);
        let e = entries.last();
        if e.0.date@ == date {
            rest.push(((e.0.src_ip, e.0.app_id), e.1))
        } else {
            rest
        }
    }
}

proof fn lemma_index(entries: Seq<HistoryEntry>, id: HistoryId, i: int)
    requires
        ids_distinct(entries),
        0 <= i < entries.len(),
        entries[i].0@ == id,
    ensures
        index_of(entries, id) == Some(i),
{
    assert(has_id(entries, id));
    let j = choose|j: int| 0 <= j < entries.len() && #[trigger] entries[j].0@ == id;
    if j != i {
        assert(entries[i].0@ != entries[j].0@);
    }
}

/// Recording keeps identities distinct and updates one entry of the history map.
pub(crate) proof fn lemma_recorded(entries: Seq<HistoryEntry>, new_key: HistoryKey, value: FlowValue)
    requires
        ids_distinct(entries),
    ensures
        ids_distinct(recorded(entries, new_key, value)),
        history_map(recorded(entries, new_key, value)) == history_map(entries).insert(
            new_key@,
            if history_map(entries).contains_key(new_key@) {
                add_activity(
                    history_map(entries)[new_key@],
                    flow_duration(value),
                    value.bytes_counter as int,
                )
            } else {
                HistoryValue {
                    total_duration: flow_duration(value) as u64,
                    total_bytes: value.bytes_counter,
                }
            },
        ),
{
    let after = recorded(entries, new_key, value);
    let m0 = history_map(entries);
    let m1 = history_map(after);
    match index_of(entries, new_key@) {
        Some(i) => {
            assert(0 <= i < entries.len() && entries[i].0@ == new_key@);
            assert forall|a: int, b: int|
                0 <= a < after.len() && 0 <= b < after.len() && a != b implies #[trigger] after[a].0@
                != #[trigger] after[b].0@ by {
                assert(entries[a].0@ != entries[b].0@);
            }
            assert forall|id: HistoryId| #[trigger] has_id(after, id) == has_id(entries, id) by {
                if has_id(after, id) {
                    let j = choose|j: int| 0 <= j < after.len() && #[trigger] after[j].0@ == id;
                    assert(entries[j].0@ == id);
                }
                if has_id(entries, id) {
                    let j = choose|j: int| 0 <= j < entries.len() && #[trigger] entries[j].0@ == id;
                    assert(after[j].0@ == id);
                }
            }
            assert forall|id: HistoryId| #[trigger] m1.contains_key(id) implies m1[id] == m0.insert(
                new_key@,
                add_activity(m0[new_key@], flow_duration(value), value.bytes_counter as int),
            )[id] by {
                let j = choose|j: int| 0 <= j < entries.len() && #[trigger] entries[j].0@ == id;
                lemma_index(entries, id, j);
                assert(after[j].0@ == id);
                lemma_index(after, id, j);
                lemma_index(entries, new_key@, i);
                if j != i {
                    assert(entries[j].0@ != entries[i].0@);
                }
            }
            assert(m1 =~= m0.insert(
                new_key@,
                add_activity(m0[new_key@], flow_duration(value), value.bytes_counter as int),
            ));
        },
        None => {
            let n = entries.len() as int;
            assert forall|a: int, b: int|
                0 <= a < after.len() && 0 <= b < after.len() && a != b implies #[trigger] after[a].0@
                != #[trigger] after[b].0@ by {
                if a < n && b < n {
                    assert(entries[a].0@ != entries[b].0@);
                } else if a < n {
                    assert(!(entries[a].0@ == new_key@));
                } else {
                    assert(!(entries[b].0@ == new_key@));
                }
            }
            assert forall|id: HistoryId| #[trigger] has_id(after, id) == (has_id(entries, id) || id
                == new_key@) by {
                if has_id(after, id) {
                    let j = choose|j: int| 0 <= j < after.len() && #[trigger] after[j].0@ == id;
                    if j < n {
                        assert(entries[j].0@ == id);
                    }
                }
                if has_id(entries, id) {
                    let j = choose|j: int| 0 <= j < entries.len() && #[trigger] entries[j].0@ == id;
                    assert(after[j].0@ == id);
                }
                if id == new_key@ {
                    assert(after[n].0@ == id);
                }
            }
            let fresh = HistoryValue {
                total_duration: flow_duration(value) as u64,
                total_bytes: value.bytes_counter,
            };
            assert forall|id: HistoryId| #[trigger] m1.contains_key(id) implies m1[id]
                == m0.insert(new_key@, fresh)[id] by {
                if id == new_key@ {
                    lemma_index(after, id, n);
                } else {
                    let j = choose|j: int| 0 <= j < entries.len() && #[trigger] entries[j].0@ == id;
                    lemma_index(entries, id, j);
                    assert(after[j].0@ == id);
                    lemma_index(after, id, j);
                }
            }
            assert(m1 =~= m0.insert(new_key@, fresh));
        },
    }
}

/// Accumulated activity per source address, application and day.
pub struct HistoryAggregator {
    entries: Vec<HistoryEntry>,
}

impl View for HistoryAggregator {
    type V = Seq<HistoryEntry>;

    closed spec fn view(&self) -> Seq<HistoryEntry> {
        self.entries@
    }
}

impl HistoryAggregator {
    #[verifier::type_invariant]
    spec fn well_formed(self) -> bool {
        ids_distinct(self.entries@)
    }

    /// Entries have distinct identities in every aggregator.
    pub fn check_well_formed(&self)
        ensures
            ids_distinct(self@),
    {
        proof {
            use_type_invariant(self);
        }
    }

    /// An empty history.
    pub fn new() -> (r: Self)
        ensures
            r@ == Seq::<HistoryEntry>::empty(),
    {
        HistoryAggregator { entries: Vec::new() }
    }

    fn find(&self, key: &HistoryKey) -> (r: Option<usize>)
        ensures
            r matches Some(i) ==> i < self@.len() && index_of(self@, key@) == Some(i as int),
            r is None ==> index_of(self@, key@) is None,
    {
        proof {
            use_type_invariant(self);
        }
        let mut i: usize = 0;
        while i < self.entries.len()
            invariant
                i <= self.entries@.len(),
                ids_distinct(self.entries@),
                forall|j: int| 0 <= j < i ==> #[trigger] self.entries@[j].0@ != key@,
            decreases self.entries@.len() - i,
        {
            if self.entries[i].0 == *key {
                proof {
                    lemma_index(self.entries@, key@, i as int);
                }
                return Some(i);
            }
            i = i + 1;
        }
        assert(!has_id(self@, key@));
        None
    }

    /// Records a finished flow under `date`: its duration and bytes are added
    /// to the entry of its source address, application and that day.
    pub fn aggregate_on(&mut self, flow_key: &FlowKey, flow_value: &FlowValue, date: String)
        requires
            can_record(old(self)@, *flow_key, *flow_value, date@),
        ensures
            final(self)@ == recorded(
                old(self)@,
                HistoryKey { src_ip: flow_key.src_ip, app_id: flow_value.app_id, date },
                *flow_value,
            ),
            ids_distinct(final(self)@),
    {
        proof {
            use_type_invariant(&*self);
        }
        let history_key = HistoryKey {
            src_ip: flow_key.src_ip,
            app_id: flow_value.app_id.clone(),
            date,
        };
        let duration = flow_value.last_active - flow_value.start_time;
        let found = self.find(&history_key);
        let mut entries: Vec<HistoryEntry> = Vec::new();
        std::mem::swap(&mut entries, &mut self.entries);
        proof {
            lemma_recorded(entries@, history_key, *flow_value);
        }
        match found {
            Some(i) => {
                let current = entries[i].1;
                let key = entries[i].0.duplicate();
                entries.set(
                    i,
                    (
                        key,
                        HistoryValue {
                            total_duration: current.total_duration + duration,
                            total_bytes: current.total_bytes + flow_value.bytes_counter,
                        },
                    ),
                );
            },
            None => {
                entries.push(
                    (
                        history_key,
                        HistoryValue { total_duration: duration, total_bytes: flow_value.bytes_counter },
                    ),
                );
            },
        }
        self.entries = entries;
    }

    /// Whether a flow can be recorded under `date` (see `can_record`).
    pub fn can_record_on(&self, flow_key: &FlowKey, flow_value: &FlowValue, date: &String) -> (r:
        bool)
        ensures
            r == can_record(self@, *flow_key, *flow_value, date@),
    {
        if flow_value.start_time > flow_value.last_active {
            return false;
        }
        let duration = flow_value.last_active - flow_value.start_time;
        let history_key = HistoryKey {
            src_ip: flow_key.src_ip,
            app_id: flow_value.app_id.clone(),
            date: date.clone(),
        };
        match self.find(&history_key) {
            Some(i) => {
                let current = self.entries[i].1;
                current.total_duration <= u64::MAX - duration && current.total_bytes <= u64::MAX
                    - flow_value.bytes_counter
            },
            None => true,
        }
    }

    /// Records a finished flow under `date` when it can be recorded there
    /// (see `can_record`) and answers true; otherwise the history is left as
    /// it is and the answer is false.
    pub fn record_on(&mut self, flow_key: &FlowKey, flow_value: &FlowValue, date: String) -> (r:
        bool)
        ensures
            aggregation_outcome(old(self)@, *flow_key, *flow_value, date, r, final(self)@),
    {
        if self.can_record_on(flow_key, flow_value, &date) {
            self.aggregate_on(flow_key, flow_value, date);
            true
        } else {
            false
        }
    }

    /// Records a finished flow under today's local date (see `record_on`).
    /// When the date cannot be read (the clock is before the epoch or past
    /// chrono's range) nothing is recorded and the answer is false.
    pub fn aggregate(&mut self, flow_key: &FlowKey, flow_value: &FlowValue) -> (r: bool)
        ensures
            (exists|date: String|
                aggregation_outcome(
                    old(self)@,
                    *flow_key,
                    *flow_value,
                    date,
                    r,
                    final(self)@,
                )) || (!r && final(self)@ == old(self)@),
    {
        match today_date() {
            Some(date) => self.record_on(flow_key, flow_value, date),
            None => false,
        }
    }

    /// A copy of every entry.
    pub fn get_summary(&self) -> (r: Vec<HistoryEntry>)
        ensures
            r@ == self@,
    {
        let mut r: Vec<HistoryEntry> = Vec::new();
        let mut i: usize = 0;
        while i < self.entries.len()
            invariant
                i <= self.entries@.len(),
                r@ == self.entries@.take(i as int),
            decreases self.entries@.len() - i,
        {
            r.push((self.entries[i].0.duplicate(), self.entries[i].1));
            i = i + 1;
            assert(r@ =~= self.entries@.take(i as int));
        }
        assert(self.entries@.take(self.entries@.len() as int) =~= self.entries@);
        r
    }

    /// The entries of `date`, keyed by source address and application.
    pub fn get_by_date(&self, date: &str) -> (r: Vec<((u32, String), HistoryValue)>)
        ensures
            r@ == date_entries(self@, date@),
    {
        let date_owned = date.to_owned();
        let mut r: Vec<((u32, String), HistoryValue)> = Vec::new();
        let mut i: usize = 0;
        while i < self.entries.len()
            invariant
                i <= self.entries@.len(),
                date_owned@ == date@,
                r@ == date_entries(self.entries@.take(i as int), date@),
            decreases self.entries@.len() - i,
        {
            let e = &self.entries[i];
            assert(self.entries@.take(i + 1).drop_last() =~= self.entries@.take(i as int));
            if e.0.date == date_owned {
                r.push(((e.0.src_ip, e.0.app_id.clone()), e.1));
            }
            i = i + 1;
        }
        assert(self.entries@.take(self.entries@.len() as int) =~= self.entries@);
        r
    }
}

impl Default for HistoryAggregator {
    fn default() -> (r: Self)
        ensures
            r@ == Seq::<HistoryEntry>::empty(),
    {
        Self::new()
    }
}

/// Records a finished flow in `history` under today's local date (see
/// `HistoryAggregator::aggregate`); the answer says whether it was recorded.
pub fn aggregate_flow(history: &mut HistoryAggregator, flow_key: &FlowKey, flow_value: &FlowValue) -> (r: bool)
    ensures
        (exists|date: String|
            aggregation_outcome(
                old(history)@,
                *flow_key,
                *flow_value,
                date,
                r,
                final(history)@,
            )) || (!r && final(history)@ == old(history)@),
{
    history.aggregate(flow_key, flow_value)
}

/// The accumulated activity of every application of `src_ip` on `date`.
pub fn get_daily_summary(history: &HistoryAggregator, src_ip: u32, date: &str) -> (r: Vec<
    HistoryValue,
>)
    ensures
        r@ == daily_values(history@, src_ip, date@),
{
    let entries = history.get_summary();
    let date_owned = date.to_owned();
    let mut r: Vec<HistoryValue> = Vec::new();
    let mut i: usize = 0;
    while i < entries.len()
        invariant
            i <= entries@.len(),
            entries@ == history@,
            date_owned@ == date@,
            r@ == daily_values(entries@.take(i as int), src_ip, date@),
        decreases entries@.len() - i,
    {
        let e = &entries[i];
        assert(entries@.take(i + 1).drop_last() =~= entries@.take(i as int));
        if e.0.src_ip == src_ip && e.0.date == date_owned {
            r.push(e.1);
        }
        i = i + 1;
    }
    assert(entries@.take(entries@.len() as int) =~= entries@);
    r
}

/// Recording adds to the right entry: after a flow is recorded under a day,
/// the history map holds, for that source address, application and day, the
/// earlier totals plus the flow's duration and bytes (or just those, for a
/// new entry), and every other entry is unchanged.
pub proof fn law_record_adds_activity(
    entries: Seq<HistoryEntry>,
    flow_key: FlowKey,
    flow_value: FlowValue,
    date: String,
)
    requires
        ids_distinct(entries),
    ensures
        ({
            let id = flow_history_id(flow_key, flow_value, date@);
            let before = history_map(entries);
            let after = history_map(
                recorded(
                    entries,
                    HistoryKey { src_ip: flow_key.src_ip, app_id: flow_value.app_id, date },
                    flow_value,
                ),
            );
            &&& after.contains_key(id)
            &&& after[id] == if before.contains_key(id) {
                add_activity(before[id], flow_duration(flow_value), flow_value.bytes_counter as int)
            } else {
                HistoryValue {
                    total_duration: flow_duration(flow_value) as u64,
                    total_bytes: flow_value.bytes_counter,
                }
            }
            &&& forall|other: HistoryId| other != id ==> after.contains_key(other) == before.contains_key(other)
                && (before.contains_key(other) ==> #[trigger] after[other] == before[other])
        }),
{
    let key = HistoryKey { src_ip: flow_key.src_ip, app_id: flow_value.app_id, date };
    lemma_recorded(entries, key, flow_value);
}

/// The history key under which a flow is recorded on `date`.
pub open spec fn history_key_of(key: FlowKey, value: FlowValue, date: String) -> HistoryKey {
    HistoryKey { src_ip: key.src_ip, app_id: value.app_id, date }
}

/// Recordings on one day commute: recording two flows on the same day, in
/// either order, gives the same history (when both orders can record both
/// flows, that is, no flow ends before it starts and no total overflows).
pub proof fn law_same_day_recordings_commute(
    entries: Seq<HistoryEntry>,
    k1: FlowKey,
    v1: FlowValue,
    k2: FlowKey,
    v2: FlowValue,
    date: String,
)
    requires
        ids_distinct(entries),
        can_record(entries, k1, v1, date@),
        can_record(entries, k2, v2, date@),
        can_record(recorded(entries, history_key_of(k1, v1, date), v1), k2, v2, date@),
        can_record(recorded(entries, history_key_of(k2, v2, date), v2), k1, v1, date@),
    ensures
        history_map(
            recorded(
                recorded(entries, history_key_of(k1, v1, date), v1),
                history_key_of(k2, v2, date),
                v2,
            ),
        ) == history_map(
            recorded(
                recorded(entries, history_key_of(k2, v2, date), v2),
                history_key_of(k1, v1, date),
                v1,
            ),
        ),
{
    let h1 = history_key_of(k1, v1, date);
    let h2 = history_key_of(k2, v2, date);
    let a = recorded(entries, h1, v1);
    let b = recorded(entries, h2, v2);
    lemma_recorded(entries, h1, v1);
    lemma_recorded(entries, h2, v2);
    lemma_recorded(a, h2, v2);
    lemma_recorded(b, h1, v1);
    let m = history_map(entries);
    let ma = history_map(a);
    let mb = history_map(b);
    let id1 = h1@;
    let id2 = h2@;
    assert(id1 == flow_history_id(k1, v1, date@));
    assert(id2 == flow_history_id(k2, v2, date@));
    if ma.contains_key(id2) {
        lemma_index_value(a, id2);
    }
    if mb.contains_key(id1) {
        lemma_index_value(b, id1);
    }
    if m.contains_key(id1) {
        lemma_index_value(entries, id1);
    }
    if m.contains_key(id2) {
        lemma_index_value(entries, id2);
    }
    let left = history_map(recorded(a, h2, v2));
    let right = history_map(recorded(b, h1, v1));
    assert(left =~= right);
}

/// The entry that `index_of` finds holds the history map's value.
pub(crate) proof fn lemma_index_value(entries: Seq<HistoryEntry>, id: HistoryId)
    requires
        history_map(entries).contains_key(id),
    ensures
        index_of(entries, id) matches Some(i) && 0 <= i < entries.len() && entries[i].1
            == history_map(entries)[id],
{
}

} // verus!
