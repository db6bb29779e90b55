//! The evaluator's input model. The serialized logs carry kind-specific
//! structured JSON; the boundary turns each line into one of these records,
//! holding as plain values exactly what the evaluation engine reads.
//! Numeric amounts, sizes and prices are fixed-point integers in
//! micro-units (one millionth of a unit).

use vstd::prelude::*;

verus! {

/// One order of a `perp_orders` request.
#[derive(Debug)]
pub struct OrderReq {
    pub coin: Option<String>,
    pub side: Option<String>,
    pub tif: Option<String>,
    pub reduce_only: Option<bool>,
    /// Order size in micro-units; absent or unreadable sizes are `None`.
    pub sz: Option<i64>,
    /// The trigger kind label, when the order carries a trigger.
    pub trigger_kind: Option<String>,
}

/// One per-order outcome entry of an order acknowledgement.
#[derive(Debug)]
pub struct AckStatus {
    /// The kind tag; an entry without a readable kind counts as missing for
    /// normalization.
    pub kind: Option<String>,
    pub oid: Option<u64>,
    pub avg_px: Option<String>,
    pub total_sz: Option<String>,
    pub status_timestamp: Option<i64>,
}

/// An action acknowledgement: a status string plus, for order actions, a
/// positional array of per-order outcome entries.
#[derive(Debug)]
pub struct Ack {
    pub status: Option<String>,
    pub statuses: Vec<AckStatus>,
}

/// One realized fill as it appears in observed payloads or in the event
/// stream. Prices and sizes stay the strings the exchange sent.
#[derive(Debug)]
pub struct Fill {
    pub px: Option<String>,
    pub sz: Option<String>,
    pub time: Option<i64>,
    pub oid: Option<u64>,
}

/// One observed payload attached to an action record, tagged with its
/// channel; the input's one-or-many shape is normalized to a list at the
/// boundary.
#[derive(Debug)]
pub struct ObservedEntry {
    pub channel: Option<String>,
    pub to_perp: Option<bool>,
    /// Transfer amount in micro-units.
    pub usdc: Option<i64>,
    pub time: Option<i64>,
    pub px: Option<String>,
    pub sz: Option<String>,
    pub fills: Option<Vec<Fill>>,
}

/// The kind-specific request payload of an action record.
#[derive(Debug)]
pub enum RequestPayload {
    PerpOrders { orders: Vec<OrderReq> },
    UsdClassTransfer { to_perp: Option<bool>, usdc: Option<i64> },
    SetLeverage { coin: Option<String> },
    /// Any request the evaluator does not read, including a missing or
    /// mismatched payload.
    Other,
}

/// One line of the action log.
#[derive(Debug)]
pub struct ActionLogRecord {
    pub step_idx: usize,
    pub action: String,
    pub submit_ts_ms: i64,
    /// The window key as logged; the evaluator recomputes it.
    pub window_key_ms: i64,
    pub request: RequestPayload,
    pub ack: Option<Ack>,
    pub observed: Vec<ObservedEntry>,
    pub notes: Option<String>,
}

/// One line of the auxiliary event-stream log.
#[derive(Debug)]
pub struct WsEvent {
    pub channel: Option<String>,
    pub to_perp: Option<bool>,
    /// Transfer amount in micro-units.
    pub usdc: Option<i64>,
    pub time: Option<i64>,
    pub fills: Option<Vec<Fill>>,
}

/// The view of an optional string as an optional character sequence.
pub open spec fn opt_view(s: Option<String>) -> Option<Seq<char>> {
    match s {
        Some(x) => Some(x@),
        None => None,
    }
}

} // verus!
