//! The work of the monitor's two loops: recording each logged packet in the
//! flow table, and moving idle flows from the table into the history.

use vstd::prelude::*;

use crate::app_identifier::{
    app_of, first_sni_match, unknown_app_id, unknown_app_name, AppIdentifier,
};
use crate::clock::{clock_secs, today_date};
use crate::flow_tracker::{
    can_absorb, cleanup_timeout_flows_at, expiry_cleanup, updated_flows, FlowEntry, FlowTracker,
};
use crate::history_aggregator::{
    can_record, flow_history_id, history_map, ids_distinct, lemma_index_value, lemma_recorded,
    recorded, HistoryAggregator, HistoryEntry, HistoryId,
};
use crate::nflog_listener::{packet_flow, parse_packet};
use crate::sni_parser::{payload_in_bounds, sni_of, SniParser};
use crate::types::{FlowKey, HistoryKey};

verus! {

/// What a packet tells about its flow: the application that the server name
/// in it identifies, with that name, or the unknown application and no name.
pub open spec fn packet_app(identifier: AppIdentifier, packet: Seq<u8>, app: (String, String, Option<String>)) -> bool {
    match sni_of(packet) {
        Some(name) => match app_of(identifier.signatures(), first_sni_match(identifier.signatures(), name, 0)) {
            Some((id, app_name)) => app.0 == id && app.1 == app_name && app.2 is Some && app.2->0@ == name,
            None => app.0@ == unknown_app_id() && app.1@ == unknown_app_name() && app.2 is None,
        },
        None => app.0@ == unknown_app_id() && app.1@ == unknown_app_name() && app.2 is None,
    }
}

/// The flow of a logged packet and the application it belongs to.
pub fn classify_packet(
    identifier: &AppIdentifier,
    sni_parser: &SniParser,
    packet: &[u8],
) -> (r: Option<(FlowKey, String, String, Option<String>)>)
    requires
        packet_flow(packet@) is Some ==> payload_in_bounds(packet@),
    ensures
        match packet_flow(packet@) {
            Some(key) => r matches Some((k, id, name, sni)) && k == key && packet_app(
                *identifier,
                packet@,
                (id, name, sni),
            ),
            None => r is None,
        },
{
    match parse_packet(packet) {
        Some((flow_key, _)) => {
            match sni_parser.extract_sni(packet) {
                Some(sni) => {
                    match identifier.identify_by_sni(sni.as_str()) {
                        Some((app_id, app_name)) => Some((flow_key, app_id, app_name, Some(sni))),
                        None => Some((flow_key, "unknown".to_owned(), "未知".to_owned(), None)),
                    }
                },
                None => Some((flow_key, "unknown".to_owned(), "未知".to_owned(), None)),
            }
        },
        None => None,
    }
}

/// Counts one logged packet for its flow at the current time: a packet
/// without a flow key is ignored; the answer says whether the packet was
/// counted, which it is unless the flow's packet counter is full.
pub fn record_packet(
    tracker: &mut FlowTracker,
    identifier: &AppIdentifier,
    sni_parser: &SniParser,
    packet: &[u8],
) -> (r: bool)
    requires
        packet_flow(packet@) is Some ==> payload_in_bounds(packet@),
    ensures
        match packet_flow(packet@) {
            Some(key) => if can_absorb(old(tracker)@, key, 0, 1) {
                r && exists|app: (String, String, Option<String>), now: u64|
                    packet_app(*identifier, packet@, app) && final(tracker)@ == updated_flows(
                        old(tracker)@,
                        key,
                        app.0,
                        app.1,
                        app.2,
                        0,
                        1,
                        now,
                    )
            } else {
                !r && final(tracker)@ == old(tracker)@
            },
            None => !r && final(tracker)@ == old(tracker)@,
        },
{
    match classify_packet(identifier, sni_parser, packet) {
        Some((flow_key, app_id, app_name, sni)) => {
            if tracker.can_absorb_traffic(&flow_key, 0, 1) {
                let ghost app = (app_id, app_name, sni);
                tracker.update_flow(flow_key, app_id, app_name, sni, 0, 1);
                let ghost now = choose|now: u64|
                    tracker@ == updated_flows(old(tracker)@, flow_key, app.0, app.1, app.2, 0, 1, now);
                assert(packet_app(*identifier, packet@, app) && tracker@ == updated_flows(
                    old(tracker)@,
                    flow_key,
                    app.0,
                    app.1,
                    app.2,
                    0,
                    1,
                    now,
                ));
                true
            } else {
                false
            }
        },
        None => false,
    }
}

/// The history after the flows `flows` are recorded one after the other,
/// the `i`th under `dates[i]`, each skipped when it cannot be recorded.
pub open spec fn history_after(
    before: Seq<HistoryEntry>,
    flows: Seq<FlowEntry>,
    dates: Seq<String>,
) -> Seq<HistoryEntry>
    decreases flows.len(),
{
    if flows.len() == 0 || dates.len() != flows.len() {
        before
    } else {
        let h = history_after(before, flows.drop_last(), dates.drop_last());
        let (key, value) = flows.last();
        if can_record(h, key, value, dates.last()@) {
            recorded(h, HistoryKey { src_ip: key.src_ip, app_id: value.app_id, date: dates.last() }, value)
        } else {
            h
        }
    }
}

proof fn lemma_history_after_distinct(
    before: Seq<HistoryEntry>,
    flows: Seq<FlowEntry>,
    dates: Seq<String>,
)
    requires
        ids_distinct(before),
    ensures
        ids_distinct(history_after(before, flows, dates)),
    decreases flows.len(),
{
    if flows.len() > 0 && dates.len() == flows.len() {
        lemma_history_after_distinct(before, flows.drop_last(), dates.drop_last());
        let h = history_after(before, flows.drop_last(), dates.drop_last());
        let (key, value) = flows.last();
        lemma_recorded(
            h,
            HistoryKey { src_ip: key.src_ip, app_id: value.app_id, date: dates.last() },
            value,
        );
    }
}

/// Every retired flow that can be recorded is recorded, whatever it counted:
/// after flows `flows` are retired under `dates`, retiring one more flow `e`
/// under `d` gives the entry of `e`'s source address, application and `d` the
/// earlier totals (none for a new entry) plus `e`'s duration (last activity
/// minus start) and bytes, and leaves every other entry as it was.
pub proof fn law_retired_flow_is_recorded(
    before: Seq<HistoryEntry>,
    flows: Seq<FlowEntry>,
    dates: Seq<String>,
    e: FlowEntry,
    d: String,
)
    requires
        ids_distinct(before),
        dates.len() == flows.len(),
        can_record(history_after(before, flows, dates), e.0, e.1, d@),
    ensures
        ({
            let h = history_map(history_after(before, flows, dates));
            let h2 = history_map(history_after(before, flows.push(e), dates.push(d)));
            let id = flow_history_id(e.0, e.1, d@);
            let prev_duration: int = if h.contains_key(id) {
                h[id].total_duration as int
            } else {
                0
            };
            let prev_bytes: int = if h.contains_key(id) {
                h[id].total_bytes as int
            } else {
                0
            };
            &&& h2.contains_key(id)
            &&& h2[id].total_duration == prev_duration + (e.1.last_active - e.1.start_time)
            &&& h2[id].total_bytes == prev_bytes + e.1.bytes_counter
            &&& forall|other: HistoryId|
                other != id ==> h2.contains_key(other) == h.contains_key(other) && (h.contains_key(
                    other,
                ) ==> #[trigger] h2[other] == h[other])
        }),
{
    let entries = history_after(before, flows, dates);
    lemma_history_after_distinct(before, flows, dates);
    assert(flows.push(e).drop_last() =~= flows);
    assert(dates.push(d).drop_last() =~= dates);
    assert(flows.push(e).last() == e);
    assert(dates.push(d).last() == d);
    let key = HistoryKey { src_ip: e.0.src_ip, app_id: e.1.app_id, date: d };
    assert(history_after(before, flows.push(e), dates.push(d)) == recorded(entries, key, e.1));
    lemma_recorded(entries, key, e.1);
    let id = flow_history_id(e.0, e.1, d@);
    assert(key@ == id);
    if history_map(entries).contains_key(id) {
        lemma_index_value(entries, id);
    }
}

/// The dates under which `n` flows retired together are recorded: `date` for each.
pub open spec fn same_date(n: nat, date: String) -> Seq<String> {
    Seq::new(n, |i: int| date)
}

/// Moves the flows idle for more than `timeout_secs` at `now` from the table
/// into the history, each recorded under `date` (a flow that cannot be
/// recorded is skipped), and returns them, oldest first.
pub fn retire_expired_flows_at(
    tracker: &mut FlowTracker,
    history: &mut HistoryAggregator,
    timeout_secs: u64,
    now: u64,
    date: &String,
) -> (r: Vec<FlowEntry>)
    ensures
        expiry_cleanup(old(tracker)@, timeout_secs, now, r@, final(tracker)@),
        final(history)@ == history_after(old(history)@, r@, same_date(r@.len(), *date)),
{
    let expired = cleanup_timeout_flows_at(tracker, timeout_secs, now);
    let mut i: usize = 0;
    while i < expired.len()
        invariant
            i <= expired@.len(),
            history@ == history_after(
                old(history)@,
                expired@.take(i as int),
                same_date(i as nat, *date),
            ),
        decreases expired@.len() - i,
    {
        let entry = &expired[i];
        history.record_on(&entry.0, &entry.1, date.clone());
        proof {
            let taken = expired@.take(i + 1);
            assert(taken.drop_last() =~= expired@.take(i as int));
            assert(same_date((i + 1) as nat, *date).drop_last() =~= same_date(i as nat, *date));
            assert(taken.last() == *entry);
        }
        i = i + 1;
    }
    assert(expired@.take(expired@.len() as int) =~= expired@);
    expired
}

/// Moves the flows idle for more than `timeout_secs` now from the table into
/// the history under today's local date (see `retire_expired_flows_at`); when
/// the date cannot be read, nothing is moved. A clock before the epoch reads
/// as 0.
pub fn retire_expired_flows(
    tracker: &mut FlowTracker,
    history: &mut HistoryAggregator,
    timeout_secs: u64,
) -> (r: Vec<FlowEntry>)
    ensures
        (exists|now: u64, date: String|
            expiry_cleanup(
                old(tracker)@,
                timeout_secs,
                now,
                r@,
                final(tracker)@,
            ) && final(history)@ == history_after(
                old(history)@,
                r@,
                same_date(r@.len(), date),
            )) || (r@.len() == 0 && final(tracker)@ == old(tracker)@ && final(history)@ == old(
            history,
        )@),
{
    match today_date() {
        Some(date) => {
            let now = clock_secs();
            retire_expired_flows_at(tracker, history, timeout_secs, now, &date)
        },
        None => Vec::new(),
    }
}

/// Seconds between rounds of the statistics loop.
pub const STATS_INTERVAL_SECS: u64 = 10;

/// Seconds between writes of the history to storage.
pub const BATCH_INTERVAL_SECS: u64 = 60;

/// Seconds of inactivity after which a flow is retired.
pub const TIMEOUT_SECS: u64 = 60;

/// After a round of the statistics loop, `elapsed_secs` after the last write:
/// whether the write timer restarts (a full batch interval has passed), and
/// whether the history, of `history_len` entries, is written then (it is not
/// empty).
pub fn persist_decision(elapsed_secs: u64, history_len: usize) -> (r: (bool, bool))
    ensures
        r == (elapsed_secs >= BATCH_INTERVAL_SECS, elapsed_secs >= BATCH_INTERVAL_SECS
            && history_len > 0),
{
    let due = elapsed_secs >= BATCH_INTERVAL_SECS;
    (due, due && history_len > 0)
}

/// How long the statistics loop sleeps after a round that took
/// `elapsed_millis`: the rest of an `interval_millis` interval, or nothing.
pub fn remaining_sleep_millis(elapsed_millis: u64, interval_millis: u64) -> (r: u64)
    ensures
        r == if elapsed_millis < interval_millis {
            interval_millis - elapsed_millis
        } else {
            0
        },
{
    if elapsed_millis < interval_millis {
        interval_millis - elapsed_millis
    } else {
        0
    }
}

} // verus!
