//! Shaping what the database returns into the records of the commands.
use vstd::prelude::*;

use super::models::OfflinePartialAvailability;

verus! {

/// A list column read back: no list when no rows were stored.
pub fn optional_list<T>(values: Vec<T>) -> (r: Option<Vec<T>>)
    ensures
        r is None <==> values.len() == 0,
        r matches Some(v) ==> v@ == values@,
{
    if values.len() == 0 {
        None
    } else {
        Some(values)
    }
}

/// The partial availability of an offline content kind: present only when all
/// three of its columns are.
pub fn partial_availability(
    available_count: Option<i64>,
    total_count: Option<i64>,
    limit_reason: Option<String>,
) -> (r: Option<OfflinePartialAvailability>)
    ensures
        r is Some <==> (available_count is Some && total_count is Some && limit_reason is Some),
        r matches Some(p) ==> Some(p.available_count) == available_count && Some(p.total_count) == total_count
            && Some(p.limit_reason) == limit_reason,
{
    match (available_count, total_count, limit_reason) {
        (Some(available_count), Some(total_count), Some(limit_reason)) => Some(
            OfflinePartialAvailability { available_count, total_count, limit_reason },
        ),
        _ => None,
    }
}

} // verus!
