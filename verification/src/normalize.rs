//! The signature normalizer: turns one raw action-log record into zero or
//! more canonical signatures plus a diagnostic reason. Every input record
//! yields exactly one output record, in input order, whether or not it is
//! ignored.

use vstd::prelude::*;
use crate::record::ActionLogRecord;
use crate::record::Ack;
use crate::record::AckStatus;
use crate::record::OrderReq;
use crate::record::RequestPayload;
use crate::record::opt_view;
use crate::sig::Signature;
use crate::sig::leverage_text;
use crate::sig::normalize_trigger;
use crate::sig::normalize_trigger_text;
use crate::sig::perp_cancel_text;
use crate::sig::perp_order_text;
use crate::sig::transfer_text;
use crate::text::eq_ignore_case;
use crate::text::str_eq;
use crate::text::str_eq_ignore_case;
use crate::time::window_start;
use crate::time::window_start_ms;

verus! {

use vstd::string::StringExecFns;

/// Why a record produced no signature, or fewer than its orders would
/// suggest; non-fatal, recorded as data.
#[derive(Debug)]
pub enum NormalizeError {
    MissingAck,
    AckNotOk,
    MissingRequest,
    NoEffect,
    IncompleteAck,
    UnsupportedAction(String),
}

/// The ghost-level shape of a normalization reason.
pub enum ReasonText {
    MissingAck,
    AckNotOk,
    MissingRequest,
    NoEffect,
    IncompleteAck,
    Unsupported(Seq<char>),
}

pub open spec fn reason_view(e: Option<NormalizeError>) -> Option<ReasonText> {
    match e {
        None => None,
        Some(NormalizeError::MissingAck) => Some(ReasonText::MissingAck),
        Some(NormalizeError::AckNotOk) => Some(ReasonText::AckNotOk),
        Some(NormalizeError::MissingRequest) => Some(ReasonText::MissingRequest),
        Some(NormalizeError::NoEffect) => Some(ReasonText::NoEffect),
        Some(NormalizeError::IncompleteAck) => Some(ReasonText::IncompleteAck),
        Some(NormalizeError::UnsupportedAction(k)) => Some(ReasonText::Unsupported(k@)),
    }
}

impl NormalizeError {
    pub open spec fn describe_text(&self) -> Seq<char> {
        match self {
            NormalizeError::MissingAck => "missing acknowledgement"@,
            NormalizeError::AckNotOk => "ack status not ok"@,
            NormalizeError::MissingRequest => "missing request payload"@,
            NormalizeError::NoEffect => "no effectful actions detected"@,
            NormalizeError::IncompleteAck => "ack missing status entries for some orders"@,
            NormalizeError::UnsupportedAction(k) => "unsupported action '"@ + k@ + "'"@,
        }
    }

    pub fn describe(&self) -> (r: String)
        ensures
            r@ == self.describe_text(),
    {
        match self {
            NormalizeError::MissingAck => {
                let mut s = String::new();
                s.append("missing acknowledgement");
                proof {
                    assert(s@ =~= self.describe_text());
                }
                s
            },
            NormalizeError::AckNotOk => {
                let mut s = String::new();
                s.append("ack status not ok");
                proof {
                    assert(s@ =~= self.describe_text());
                }
                s
            },
            NormalizeError::MissingRequest => {
                let mut s = String::new();
                s.append("missing request payload");
                proof {
                    assert(s@ =~= self.describe_text());
                }
                s
            },
            NormalizeError::NoEffect => {
                let mut s = String::new();
                s.append("no effectful actions detected");
                proof {
                    assert(s@ =~= self.describe_text());
                }
                s
            },
            NormalizeError::IncompleteAck => {
                let mut s = String::new();
                s.append("ack missing status entries for some orders");
                proof {
                    assert(s@ =~= self.describe_text());
                }
                s
            },
            NormalizeError::UnsupportedAction(k) => {
                let mut s = String::new();
                s.append("unsupported action '");
                s.append(k.as_str());
                s.append("'");
                proof {
                    assert(s@ =~= self.describe_text());
                }
                s
            },
        }
    }
}

/// One evaluated record: the signatures produced, whether the record is
/// excluded from scoring, and the reason if any.
#[derive(Debug)]
pub struct EvalActionRecord {
    pub step_idx: usize,
    pub action: String,
    pub submit_ts_ms: i64,
    pub window_key_ms: i64,
    pub signatures: Vec<String>,
    pub ignored: bool,
    pub reason: Option<NormalizeError>,
}

/// An acknowledgement counts as ok when its status field equals "ok" up to
/// ASCII case.
pub open spec fn ack_ok(ack: Ack) -> bool {
    match ack.status {
        Some(s) => eq_ignore_case(s@, "ok"@),
        None => false,
    }
}

pub fn ack_status_ok(ack: &Ack) -> (r: bool)
    ensures
        r == ack_ok(*ack),
{
    match &ack.status {
        Some(s) => str_eq_ignore_case(s.as_str(), "ok"),
        None => false,
    }
}

pub open spec fn record_ack_ok(r: ActionLogRecord) -> bool {
    match r.ack {
        Some(a) => ack_ok(a),
        None => false,
    }
}

/// The signature text one order contributes: time-in-force (GTC when
/// absent), the reduce-only flag (false when absent), the trigger kind.
pub open spec fn order_sig_text(o: OrderReq) -> Seq<char> {
    perp_order_text(
        match o.tif {
            Some(t) => t@,
            None => "GTC"@,
        },
        match o.reduce_only {
            Some(b) => b,
            None => false,
        },
        normalize_trigger_text(opt_view(o.trigger_kind)),
    )
}

/// Position `i` lacks a usable acknowledgement entry.
pub open spec fn status_missing(statuses: Seq<AckStatus>, i: int) -> bool {
    i >= statuses.len() || statuses[i].kind is None
}

/// Position `i` was acknowledged with an error.
pub open spec fn status_error(statuses: Seq<AckStatus>, i: int) -> bool {
    i < statuses.len() && match statuses[i].kind {
        Some(k) => eq_ignore_case(k@, "error"@),
        None => false,
    }
}

/// The signatures emitted for orders at positions `i` and later: a missing
/// entry or an error entry contributes nothing.
pub open spec fn perp_sigs_from(orders: Seq<OrderReq>, statuses: Seq<AckStatus>, i: int) -> Seq<
    Seq<char>,
>
    decreases orders.len() - i,
{
    if i < 0 || i >= orders.len() {
        Seq::empty()
    } else {
        let rest = perp_sigs_from(orders, statuses, i + 1);
        if status_missing(statuses, i) {
            rest
        } else if status_error(statuses, i) {
            rest
        } else {
            seq![order_sig_text(orders[i])] + rest
        }
    }
}

/// Some order position lacked an acknowledgement entry.
pub open spec fn perp_incomplete(orders: Seq<OrderReq>, statuses: Seq<AckStatus>) -> bool {
    exists|i: int| 0 <= i < orders.len() && status_missing(statuses, i)
}

pub open spec fn record_orders(r: ActionLogRecord) -> Option<Seq<OrderReq>> {
    match r.request {
        RequestPayload::PerpOrders { orders } => Some(orders@),
        _ => None,
    }
}

pub open spec fn record_statuses(r: ActionLogRecord) -> Seq<AckStatus> {
    match r.ack {
        Some(a) => a.statuses@,
        None => Seq::empty(),
    }
}

/// The signatures a `perp_orders` record produces.
pub open spec fn perp_result_sigs(r: ActionLogRecord) -> Seq<Seq<char>> {
    if !record_ack_ok(r) {
        Seq::empty()
    } else {
        match record_orders(r) {
            Some(orders) => if orders.len() == 0 {
                Seq::empty()
            } else {
                perp_sigs_from(orders, record_statuses(r), 0)
            },
            None => Seq::empty(),
        }
    }
}

/// The reason a `perp_orders` record carries, if any. A record may carry
/// signatures and a non-fatal reason at the same time.
pub open spec fn perp_reason(r: ActionLogRecord) -> Option<ReasonText> {
    if r.ack is None {
        Some(ReasonText::MissingAck)
    } else if !record_ack_ok(r) {
        Some(ReasonText::AckNotOk)
    } else {
        match record_orders(r) {
            None => Some(ReasonText::MissingRequest),
            Some(orders) => if orders.len() == 0 {
                Some(ReasonText::MissingRequest)
            } else if perp_incomplete(orders, record_statuses(r)) {
                Some(ReasonText::IncompleteAck)
            } else if perp_sigs_from(orders, record_statuses(r), 0).len() == 0 {
                Some(ReasonText::NoEffect)
            } else {
                None
            },
        }
    }
}

/// Normalizes one `perp_orders` record.
pub fn normalize_perp_orders(record: &ActionLogRecord) -> (r: (Vec<String>, Option<
    NormalizeError,
>))
    ensures
        r.0@.map_values(|s: String| s@) == perp_result_sigs(*record),
        reason_view(r.1) == perp_reason(*record),
{
    let ack = match &record.ack {
        Some(a) => a,
        None => {
            return (Vec::new(), Some(NormalizeError::MissingAck));
        },
    };
    if !ack_status_ok(ack) {
        return (Vec::new(), Some(NormalizeError::AckNotOk));
    }
    let orders = match &record.request {
        RequestPayload::PerpOrders { orders } => orders,
        _ => {
            return (Vec::new(), Some(NormalizeError::MissingRequest));
        },
    };
    if orders.len() == 0 {
        return (Vec::new(), Some(NormalizeError::MissingRequest));
    }
    let statuses = &ack.statuses;
    let mut sigs: Vec<String> = Vec::new();
    let mut incomplete: bool = false;
    let mut idx: usize = 0;
    while idx < orders.len()
        invariant
            idx <= orders@.len(),
            perp_sigs_from(orders@, statuses@, 0) == sigs@.map_values(|s: String| s@)
                + perp_sigs_from(orders@, statuses@, idx as int),
            incomplete == exists|j: int| 0 <= j < idx && status_missing(statuses@, j),
        decreases orders@.len() - idx,
    {
        let ghost old_incomplete = incomplete;
        let mut emit: bool = false;
        if idx >= statuses.len() {
            incomplete = true;
        } else {
            match &statuses[idx].kind {
                None => {
                    incomplete = true;
                },
                Some(k) => {
                    if !str_eq_ignore_case(k.as_str(), "error") {
                        emit = true;
                    }
                },
            }
        }
        proof {
            if incomplete && !old_incomplete {
                assert(status_missing(statuses@, idx as int));
            }
            if !incomplete {
                assert(!status_missing(statuses@, idx as int));
                assert((exists|j: int| 0 <= j < idx + 1 && status_missing(statuses@, j)) == (
                exists|j: int| 0 <= j < idx && status_missing(statuses@, j))) by {
                    if exists|j: int| 0 <= j < idx + 1 && status_missing(statuses@, j) {
                        let j = choose|j: int|
                            0 <= j < idx + 1 && status_missing(statuses@, j);
                        assert(j < idx);
                    }
                }
            }
        }
        if emit {
            let order = &orders[idx];
            let tif: &str = match &order.tif {
                Some(t) => t.as_str(),
                None => "GTC",
            };
            let reduce_only: bool = match order.reduce_only {
                Some(b) => b,
                None => false,
            };
            let trigger = normalize_trigger(&order.trigger_kind);
            let signature = Signature::perp_order(tif, reduce_only, trigger.as_str());
            let ghost old_sigs = sigs@;
            sigs.push(signature.into_inner());
            proof {
                assert(sigs@.map_values(|s: String| s@) =~~= old_sigs.map_values(
                    |s: String| s@,
                ).push(order_sig_text(orders@[idx as int])));
                assert(seq![order_sig_text(orders@[idx as int])] + perp_sigs_from(
                    orders@,
                    statuses@,
                    idx + 1,
                ) =~~= Seq::empty().push(order_sig_text(orders@[idx as int])) + perp_sigs_from(
                    orders@,
                    statuses@,
                    idx + 1,
                ));
                assert(old_sigs.map_values(|s: String| s@).push(
                    order_sig_text(orders@[idx as int]),
                ) + perp_sigs_from(orders@, statuses@, idx + 1) =~~= old_sigs.map_values(
                    |s: String| s@,
                ) + (seq![order_sig_text(orders@[idx as int])] + perp_sigs_from(
                    orders@,
                    statuses@,
                    idx + 1,
                )));
            }
        }
        idx = idx + 1;
    }
    let reason: Option<NormalizeError> = if incomplete {
        Some(NormalizeError::IncompleteAck)
    } else if sigs.len() == 0 {
        Some(NormalizeError::NoEffect)
    } else {
        None
    };
    proof {
        assert(perp_sigs_from(orders@, statuses@, orders@.len() as int) =~~= Seq::<
            Seq<char>,
        >::empty());
        assert(sigs@.map_values(|s: String| s@) + Seq::<Seq<char>>::empty() =~~= sigs@.map_values(
            |s: String| s@,
        ));
    }
    (sigs, reason)
}

/// Signatures of an action that emits one constant signature on an ok
/// acknowledgement.
pub open spec fn simple_ack_sigs(r: ActionLogRecord, text: Seq<char>) -> Seq<Seq<char>> {
    if record_ack_ok(r) {
        seq![text]
    } else {
        Seq::empty()
    }
}

/// Reason of an action that only requires an ok acknowledgement.
pub open spec fn simple_ack_reason(r: ActionLogRecord) -> Option<ReasonText> {
    if r.ack is None {
        Some(ReasonText::MissingAck)
    } else if !record_ack_ok(r) {
        Some(ReasonText::AckNotOk)
    } else {
        None
    }
}

/// Normalizes a cancel record into its constant signature.
pub fn normalize_cancel(record: &ActionLogRecord, scope: &str) -> (r: (Vec<String>, Option<
    NormalizeError,
>))
    ensures
        r.0@.map_values(|s: String| s@) == simple_ack_sigs(*record, perp_cancel_text(scope@)),
        reason_view(r.1) == simple_ack_reason(*record),
{
    let ack = match &record.ack {
        Some(a) => a,
        None => {
            return (Vec::new(), Some(NormalizeError::MissingAck));
        },
    };
    if !ack_status_ok(ack) {
        return (Vec::new(), Some(NormalizeError::AckNotOk));
    }
    let mut sigs: Vec<String> = Vec::new();
    sigs.push(Signature::perp_cancel(scope).into_inner());
    proof {
        assert(sigs@.map_values(|s: String| s@) =~~= seq![perp_cancel_text(scope@)]);
    }
    (sigs, None)
}

/// The transfer direction of a record: `fromPerp` only when the request
/// says so explicitly; a missing field defaults to `toPerp`.
pub open spec fn transfer_direction(r: ActionLogRecord) -> Seq<char> {
    match r.request {
        RequestPayload::UsdClassTransfer { to_perp: Some(false), .. } => "fromPerp"@,
        _ => "toPerp"@,
    }
}

/// Normalizes a `usd_class_transfer` record.
pub fn normalize_transfer(record: &ActionLogRecord) -> (r: (Vec<String>, Option<NormalizeError>))
    ensures
        r.0@.map_values(|s: String| s@) == simple_ack_sigs(
            *record,
            transfer_text(transfer_direction(*record)),
        ),
        reason_view(r.1) == simple_ack_reason(*record),
{
    let ack = match &record.ack {
        Some(a) => a,
        None => {
            return (Vec::new(), Some(NormalizeError::MissingAck));
        },
    };
    if !ack_status_ok(ack) {
        return (Vec::new(), Some(NormalizeError::AckNotOk));
    }
    let dir: &str = match &record.request {
        RequestPayload::UsdClassTransfer { to_perp: Some(b), .. } => if *b {
            "toPerp"
        } else {
            "fromPerp"
        },
        _ => "toPerp",
    };
    let mut sigs: Vec<String> = Vec::new();
    sigs.push(Signature::account_usd_class_transfer(dir).into_inner());
    proof {
        assert(sigs@.map_values(|s: String| s@) =~~= seq![
            transfer_text(transfer_direction(*record)),
        ]);
    }
    (sigs, None)
}

/// The leverage coin of a record, defaulting to UNKNOWN.
pub open spec fn leverage_coin(r: ActionLogRecord) -> Seq<char> {
    match r.request {
        RequestPayload::SetLeverage { coin: Some(c) } => c@,
        _ => "UNKNOWN"@,
    }
}

/// Normalizes a `set_leverage` record.
pub fn normalize_leverage(record: &ActionLogRecord) -> (r: (Vec<String>, Option<NormalizeError>))
    ensures
        r.0@.map_values(|s: String| s@) == simple_ack_sigs(
            *record,
            leverage_text(leverage_coin(*record)),
        ),
        reason_view(r.1) == simple_ack_reason(*record),
{
    let ack = match &record.ack {
        Some(a) => a,
        None => {
            return (Vec::new(), Some(NormalizeError::MissingAck));
        },
    };
    if !ack_status_ok(ack) {
        return (Vec::new(), Some(NormalizeError::AckNotOk));
    }
    let coin: &str = match &record.request {
        RequestPayload::SetLeverage { coin: Some(c) } => c.as_str(),
        _ => "UNKNOWN",
    };
    let mut sigs: Vec<String> = Vec::new();
    sigs.push(Signature::risk_set_leverage(coin).into_inner());
    proof {
        assert(sigs@.map_values(|s: String| s@) =~~= seq![
            leverage_text(leverage_coin(*record)),
        ]);
    }
    (sigs, None)
}

/// The signatures any record produces, by its action kind.
pub open spec fn record_sigs(r: ActionLogRecord) -> Seq<Seq<char>> {
    if r.action@ == "perp_orders"@ {
        perp_result_sigs(r)
    } else if r.action@ == "cancel_last"@ {
        simple_ack_sigs(r, perp_cancel_text("last"@))
    } else if r.action@ == "cancel_oids"@ {
        simple_ack_sigs(r, perp_cancel_text("oids"@))
    } else if r.action@ == "cancel_all"@ {
        simple_ack_sigs(r, perp_cancel_text("all"@))
    } else if r.action@ == "usd_class_transfer"@ {
        simple_ack_sigs(r, transfer_text(transfer_direction(r)))
    } else if r.action@ == "set_leverage"@ {
        simple_ack_sigs(r, leverage_text(leverage_coin(r)))
    } else {
        Seq::empty()
    }
}

/// The reason any record carries, by its action kind.
pub open spec fn record_reason(r: ActionLogRecord) -> Option<ReasonText> {
    if r.action@ == "perp_orders"@ {
        perp_reason(r)
    } else if r.action@ == "cancel_last"@ || r.action@ == "cancel_oids"@ || r.action@
        == "cancel_all"@ || r.action@ == "usd_class_transfer"@ || r.action@ == "set_leverage"@ {
        simple_ack_reason(r)
    } else {
        Some(ReasonText::Unsupported(r.action@))
    }
}

/// The relation between an evaluated record and the input record it came
/// from: same identity fields, a recomputed window key, the signatures and
/// reason of the action kind, and the ignored flag exactly when no
/// signature was produced.
pub open spec fn eval_record_matches(e: EvalActionRecord, r: ActionLogRecord, window_ms: int) -> bool {
    &&& e.step_idx == r.step_idx
    &&& e.action@ == r.action@
    &&& e.submit_ts_ms == r.submit_ts_ms
    &&& e.window_key_ms == window_start(r.submit_ts_ms as int, window_ms)
    &&& e.signatures@.map_values(|s: String| s@) == record_sigs(r)
    &&& reason_view(e.reason) == record_reason(r)
    &&& e.ignored == (record_sigs(r).len() == 0)
}

/// Normalizes one record: recomputes its window key and derives its
/// signatures and reason.
pub fn normalize_action(record: &ActionLogRecord, window_ms: i64) -> (r: EvalActionRecord)
    ensures
        eval_record_matches(r, *record, window_ms as int),
{
    let window_key_ms = window_start_ms(record.submit_ts_ms, window_ms);
    let a = record.action.as_str();
    let (signatures, reason): (Vec<String>, Option<NormalizeError>) = if str_eq(a, "perp_orders") {
        normalize_perp_orders(record)
    } else if str_eq(a, "cancel_last") {
        normalize_cancel(record, "last")
    } else if str_eq(a, "cancel_oids") {
        normalize_cancel(record, "oids")
    } else if str_eq(a, "cancel_all") {
        normalize_cancel(record, "all")
    } else if str_eq(a, "usd_class_transfer") {
        normalize_transfer(record)
    } else if str_eq(a, "set_leverage") {
        normalize_leverage(record)
    } else {
        proof {
            assert(Seq::<String>::empty().map_values(|s: String| s@) =~~= Seq::<
                Seq<char>,
            >::empty());
        }
        (Vec::new(), Some(NormalizeError::UnsupportedAction(record.action.clone())))
    };
    let ignored = signatures.len() == 0;
    EvalActionRecord {
        step_idx: record.step_idx,
        action: record.action.clone(),
        submit_ts_ms: record.submit_ts_ms,
        window_key_ms,
        signatures,
        ignored,
        reason,
    }
}

/// Normalizes a whole action log, one evaluated record per input record,
/// in input order.
pub fn normalize_records(records: &Vec<ActionLogRecord>, window_ms: i64) -> (r: Vec<
    EvalActionRecord,
>)
    ensures
        r@.len() == records@.len(),
        forall|i: int|
            0 <= i < records@.len() ==> eval_record_matches(
                #[trigger] r@[i],
                records@[i],
                window_ms as int,
            ),
{
    let mut out: Vec<EvalActionRecord> = Vec::new();
    let mut i: usize = 0;
    while i < records.len()
        invariant
            i <= records@.len(),
            out@.len() == i,
            forall|j: int|
                0 <= j < i ==> eval_record_matches(
                    #[trigger] out@[j],
                    records@[j],
                    window_ms as int,
                ),
        decreases records@.len() - i,
    {
        out.push(normalize_action(&records[i], window_ms));
        i = i + 1;
    }
    out
}

} // verus!
