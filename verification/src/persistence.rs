//! The rows in which the history is stored.

use vstd::prelude::*;

use crate::text::{decimal, push_decimal};
use crate::types::{HistoryKey, HistoryValue};

verus! {

/// A stored history row: source address (as a decimal number), application
/// id, date, duration, bytes up and bytes down.
pub type HistoryRow = (String, String, String, i64, i64, i64);

/// The row that stores a history entry; the totals are stored as signed
/// 64-bit numbers and no downstream bytes are counted.
pub fn history_row(key: &HistoryKey, value: &HistoryValue) -> (r: HistoryRow)
    ensures
        r.0@ == decimal(key.src_ip as nat),
        r.1 == key.app_id,
        r.2 == key.date,
        r.3 == value.total_duration as i64,
        r.4 == value.total_bytes as i64,
        r.5 == 0,
{
    let mut src_ip = String::new();
    push_decimal(&mut src_ip, key.src_ip as u64);
    assert(src_ip@ =~= decimal(key.src_ip as nat));
    (
        src_ip,
        key.app_id.clone(),
        key.date.clone(),
        value.total_duration as i64,
        value.total_bytes as i64,
        0,
    )
}

} // verus!
