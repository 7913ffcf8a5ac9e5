//! The query side of the local API: which endpoint a request names, and the
//! figures that each endpoint reports.

use vstd::prelude::*;

use crate::flow_tracker::FlowEntry;
use crate::history_aggregator::HistoryEntry;
use crate::text::{chars_of, decimal, has_prefix, push_decimal, starts_with_chars, trim, trim_chars};

verus! {

/// The endpoints of the API.
#[derive(Debug, Clone, Copy, PartialEq, Eq, Structural)]
pub enum ApiRoute {
    Dashboard,
    Connections,
    History,
    Stats,
    Unknown,
}

/// The endpoint a request names, by the prefix of the trimmed request line.
pub open spec fn route_of(request: Seq<char>) -> ApiRoute {
    let r = trim(request);
    if has_prefix(r, "GET /api/dashboard"@) {
        ApiRoute::Dashboard
    } else if has_prefix(r, "GET /api/connections"@) {
        ApiRoute::Connections
    } else if has_prefix(r, "GET /api/history"@) {
        ApiRoute::History
    } else if has_prefix(r, "GET /api/stats"@) {
        ApiRoute::Stats
    } else {
        ApiRoute::Unknown
    }
}

/// The endpoint that `request` names.
pub fn route_request(request: &str) -> (r: ApiRoute)
    ensures
        r == route_of(request@),
{
    let trimmed = chars_of(trim_chars(&chars_of(request)).as_str());
    if starts_with_chars(&trimmed, &chars_of("GET /api/dashboard")) {
        ApiRoute::Dashboard
    } else if starts_with_chars(&trimmed, &chars_of("GET /api/connections")) {
        ApiRoute::Connections
    } else if starts_with_chars(&trimmed, &chars_of("GET /api/history")) {
        ApiRoute::History
    } else if starts_with_chars(&trimmed, &chars_of("GET /api/stats")) {
        ApiRoute::Stats
    } else {
        ApiRoute::Unknown
    }
}

/// The reply to a request for an unknown endpoint.
pub fn unknown_endpoint_reply() -> (r: String)
    ensures
        r@ == "{\"error\": \"unknown endpoint\"}"@,
{
    "{\"error\": \"unknown endpoint\"}".to_owned()
}

/// The memory figure that the dashboard shows.
pub open spec fn memory_usage_text() -> Seq<char> {
    "45MB / 128MB"@
}

/// Sum of the byte counters of `flows`.
pub open spec fn bytes_total(flows: Seq<FlowEntry>) -> int
    decreases flows.len(),
{
    if flows.len() == 0 {
        0
    } else {
        bytes_total(flows.drop_last()) + flows.last().1.bytes_counter
    }
}

proof fn lemma_bytes_total_grows(flows: Seq<FlowEntry>, i: int)
    requires
        0 <= i <= flows.len(),
    ensures
        0 <= bytes_total(flows.take(i)) <= bytes_total(flows),
    decreases flows.len() - i,
{
    if i < flows.len() {
        lemma_bytes_total_grows(flows, i + 1);
        assert(flows.take(i + 1).drop_last() =~= flows.take(i));
        lemma_bytes_total_nonneg(flows.take(i));
    } else {
        assert(flows.take(i) =~= flows);
        lemma_bytes_total_nonneg(flows);
    }
}

proof fn lemma_bytes_total_nonneg(flows: Seq<FlowEntry>)
    ensures
        bytes_total(flows) >= 0,
    decreases flows.len(),
{
    if flows.len() > 0 {
        lemma_bytes_total_nonneg(flows.drop_last());
    }
}

/// The sum of the byte counters, or `None` when it does not fit in 64 bits.
pub fn total_bytes(flows: &Vec<FlowEntry>) -> (r: Option<u64>)
    ensures
        r == if bytes_total(flows@) <= u64::MAX {
            Some(bytes_total(flows@) as u64)
        } else {
            None
        },
{
    let mut sum: u64 = 0;
    let mut i: usize = 0;
    while i < flows.len()
        invariant
            i <= flows@.len(),
            sum == bytes_total(flows@.take(i as int)),
        decreases flows@.len() - i,
    {
        assert(flows@.take(i + 1).drop_last() =~= flows@.take(i as int));
        let b = flows[i].1.bytes_counter;
        if b > u64::MAX - sum {
            proof {
                lemma_bytes_total_grows(flows@, i + 1);
            }
            return None;
        }
        sum = sum + b;
        i = i + 1;
    }
    assert(flows@.take(flows@.len() as int) =~= flows@);
    Some(sum)
}

/// The figures of the dashboard.
#[derive(Debug, Clone)]
pub struct DashboardStats {
    pub total_connections: usize,
    pub memory_usage: String,
    pub upload_speed: u64,
    pub download_speed: u64,
    pub upload_total: u64,
    pub download_total: u64,
}

/// The dashboard for the active flows: their number, and half of their
/// bytes as upload and as download total.
pub fn dashboard_stats(flows: &Vec<FlowEntry>) -> (r: DashboardStats)
    requires
        bytes_total(flows@) <= u64::MAX,
    ensures
        r.total_connections == flows@.len(),
        r.memory_usage@ == memory_usage_text(),
        r.upload_speed == 0,
        r.download_speed == 0,
        r.upload_total == bytes_total(flows@) / 2,
        r.download_total == bytes_total(flows@) / 2,
{
    proof {
        lemma_bytes_total_nonneg(flows@);
    }
    let total = match total_bytes(flows) {
        Some(t) => t,
        None => 0,
    };
    DashboardStats {
        total_connections: flows.len(),
        memory_usage: "45MB / 128MB".to_owned(),
        upload_speed: 0,
        download_speed: 0,
        upload_total: total / 2,
        download_total: total / 2,
    }
}

/// One row of the connection list.
#[derive(Debug, Clone)]
pub struct ConnectionInfo {
    pub src_ip: String,
    pub dst_ip: String,
    pub dst_port: u16,
    pub app_name: String,
    pub bytes: u64,
    pub duration: u64,
}

/// No flow ended before it started.
pub open spec fn durations_valid(flows: Seq<FlowEntry>) -> bool {
    forall|i: int| 0 <= i < flows.len() ==> #[trigger] flows[i].1.start_time <= flows[i].1.last_active
}

/// Whether no flow ended before it started.
pub fn check_durations(flows: &Vec<FlowEntry>) -> (r: bool)
    ensures
        r == durations_valid(flows@),
{
    let mut i: usize = 0;
    while i < flows.len()
        invariant
            i <= flows@.len(),
            forall|k: int| 0 <= k < i ==> #[trigger] flows@[k].1.start_time <= flows@[k].1.last_active,
        decreases flows@.len() - i,
    {
        if flows[i].1.start_time > flows[i].1.last_active {
            return false;
        }
        i = i + 1;
    }
    true
}

/// The row that an entry gives: addresses as decimal numbers, destination
/// port, application name, bytes and how long the flow was active.
pub open spec fn connection_row(e: FlowEntry, row: ConnectionInfo) -> bool {
    &&& row.src_ip@ == decimal(e.0.src_ip as nat)
    &&& row.dst_ip@ == decimal(e.0.dst_ip as nat)
    &&& row.dst_port == e.0.dst_port
    &&& row.app_name == e.1.app_name
    &&& row.bytes == e.1.bytes_counter
    &&& row.duration == e.1.last_active - e.1.start_time
}

fn decimal_string(n: u64) -> (r: String)
    ensures
        r@ == decimal(n as nat),
{
    let mut s = String::new();
    push_decimal(&mut s, n);
    assert(s@ =~= decimal(n as nat));
    s
}

/// One row per flow, in table order.
pub fn connection_rows(flows: &Vec<FlowEntry>) -> (r: Vec<ConnectionInfo>)
    requires
        durations_valid(flows@),
    ensures
        r@.len() == flows@.len(),
        forall|i: int| 0 <= i < r@.len() ==> connection_row(flows@[i], #[trigger] r@[i]),
{
    let mut r: Vec<ConnectionInfo> = Vec::new();
    let mut i: usize = 0;
    while i < flows.len()
        invariant
            i <= flows@.len(),
            durations_valid(flows@),
            r@.len() == i,
            forall|k: int| 0 <= k < i ==> connection_row(flows@[k], #[trigger] r@[k]),
        decreases flows@.len() - i,
    {
        let e = &flows[i];
        assert(e.1.start_time <= e.1.last_active);
        r.push(
            ConnectionInfo {
                src_ip: decimal_string(e.0.src_ip as u64),
                dst_ip: decimal_string(e.0.dst_ip as u64),
                dst_port: e.0.dst_port,
                app_name: e.1.app_name.clone(),
                bytes: e.1.bytes_counter,
                duration: e.1.last_active - e.1.start_time,
            },
        );
        i = i + 1;
    }
    r
}

/// One row per history entry: source address as a decimal number,
/// application id, total duration and total bytes.
pub fn history_rows(entries: &Vec<HistoryEntry>) -> (r: Vec<(String, String, u64, u64)>)
    ensures
        r@.len() == entries@.len(),
        forall|i: int|
            0 <= i < r@.len() ==> {
                &&& (#[trigger] r@[i]).0@ == decimal(entries@[i].0.src_ip as nat)
                &&& r@[i].1 == entries@[i].0.app_id
                &&& r@[i].2 == entries@[i].1.total_duration
                &&& r@[i].3 == entries@[i].1.total_bytes
            },
{
    let mut r: Vec<(String, String, u64, u64)> = Vec::new();
    let mut i: usize = 0;
    while i < entries.len()
        invariant
            i <= entries@.len(),
            r@.len() == i,
            forall|k: int|
                0 <= k < i ==> {
                    &&& (#[trigger] r@[k]).0@ == decimal(entries@[k].0.src_ip as nat)
                    &&& r@[k].1 == entries@[k].0.app_id
                    &&& r@[k].2 == entries@[k].1.total_duration
                    &&& r@[k].3 == entries@[k].1.total_bytes
                },
        decreases entries@.len() - i,
    {
        let e = &entries[i];
        r.push(
            (
                decimal_string(e.0.src_ip as u64),
                e.0.app_id.clone(),
                e.1.total_duration,
                e.1.total_bytes,
            ),
        );
        i = i + 1;
    }
    r
}

/// The general statistics: the number of flows, reported both as total and as active.
pub fn general_stats(flows: &Vec<FlowEntry>) -> (r: (usize, usize))
    ensures
        r == (flows@.len() as usize, flows@.len() as usize),
{
    (flows.len(), flows.len())
}

} // verus!
