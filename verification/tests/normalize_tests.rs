use hl_evaluator::normalize::EvalActionRecord;
use hl_evaluator::normalize::NormalizeError;
use hl_evaluator::normalize::normalize_action;
use hl_evaluator::normalize::normalize_perp_orders;
use hl_evaluator::normalize::normalize_records;
use hl_evaluator::record::Ack;
use hl_evaluator::record::AckStatus;
use hl_evaluator::record::ActionLogRecord;
use hl_evaluator::record::OrderReq;
use hl_evaluator::record::RequestPayload;

fn order(tif: &str, reduce_only: bool) -> OrderReq {
    OrderReq {
        coin: Some("ETH".to_string()),
        side: None,
        tif: Some(tif.to_string()),
        reduce_only: Some(reduce_only),
        sz: None,
        trigger_kind: None,
    }
}

fn status(kind: &str) -> AckStatus {
    AckStatus {
        kind: Some(kind.to_string()),
        oid: None,
        avg_px: None,
        total_sz: None,
        status_timestamp: None,
    }
}

fn ok_ack(statuses: Vec<AckStatus>) -> Ack {
    Ack { status: Some("ok".to_string()), statuses }
}

fn record(action: &str, request: RequestPayload, ack: Option<Ack>) -> ActionLogRecord {
    ActionLogRecord {
        step_idx: 1,
        action: action.to_string(),
        submit_ts_ms: 0,
        window_key_ms: 0,
        request,
        ack,
        observed: vec![],
        notes: None,
    }
}

#[test]
fn normalize_perp_order_success() {
    let rec = record(
        "perp_orders",
        RequestPayload::PerpOrders { orders: vec![order("Gtc", false)] },
        Some(ok_ack(vec![status("resting")])),
    );
    let (signatures, reason) = normalize_perp_orders(&rec);
    assert!(reason.is_none());
    assert_eq!(signatures, vec!["perp.order.GTC:false:none".to_string()]);
}

#[test]
fn normalize_perp_order_error_filtered() {
    let rec = record(
        "perp_orders",
        RequestPayload::PerpOrders { orders: vec![order("Gtc", false)] },
        Some(ok_ack(vec![status("error")])),
    );
    let (signatures, reason) = normalize_perp_orders(&rec);
    assert!(signatures.is_empty());
    assert!(matches!(reason, Some(NormalizeError::NoEffect)));
}

#[test]
fn normalize_perp_order_missing_status() {
    let rec = record(
        "perp_orders",
        RequestPayload::PerpOrders { orders: vec![order("Gtc", false)] },
        Some(ok_ack(vec![])),
    );
    let (signatures, reason) = normalize_perp_orders(&rec);
    assert!(signatures.is_empty());
    assert!(matches!(reason, Some(NormalizeError::IncompleteAck)));
}

#[test]
fn normalize_perp_order_partial_ack() {
    let rec = record(
        "perp_orders",
        RequestPayload::PerpOrders { orders: vec![order("Gtc", false), order("Ioc", false)] },
        Some(ok_ack(vec![status("resting")])),
    );
    let (signatures, reason) = normalize_perp_orders(&rec);
    assert_eq!(signatures, vec!["perp.order.GTC:false:none".to_string()]);
    assert!(matches!(reason, Some(NormalizeError::IncompleteAck)));
}

#[test]
fn normalize_missing_ack_and_not_ok() {
    let rec = record(
        "perp_orders",
        RequestPayload::PerpOrders { orders: vec![order("Gtc", false)] },
        None,
    );
    let (sigs, reason) = normalize_perp_orders(&rec);
    assert!(sigs.is_empty());
    assert!(matches!(reason, Some(NormalizeError::MissingAck)));
    assert_eq!(reason.unwrap().describe(), "missing acknowledgement");

    let rec2 = record(
        "perp_orders",
        RequestPayload::PerpOrders { orders: vec![order("Gtc", false)] },
        Some(Ack { status: Some("err".to_string()), statuses: vec![] }),
    );
    let (sigs2, reason2) = normalize_perp_orders(&rec2);
    assert!(sigs2.is_empty());
    assert!(matches!(reason2, Some(NormalizeError::AckNotOk)));
}

#[test]
fn normalize_missing_request() {
    let rec = record(
        "perp_orders",
        RequestPayload::PerpOrders { orders: vec![] },
        Some(ok_ack(vec![])),
    );
    let (sigs, reason) = normalize_perp_orders(&rec);
    assert!(sigs.is_empty());
    assert!(matches!(reason, Some(NormalizeError::MissingRequest)));
}

#[test]
fn normalize_order_discriminators() {
    // A trigger kind is folded to lower case; time-in-force to upper case;
    // the ack status compares case-insensitively.
    let mut o = order("ioc", true);
    o.trigger_kind = Some("Tp".to_string());
    let rec = ActionLogRecord {
        step_idx: 0,
        action: "perp_orders".to_string(),
        submit_ts_ms: 0,
        window_key_ms: 0,
        request: RequestPayload::PerpOrders { orders: vec![o] },
        ack: Some(Ack { status: Some("OK".to_string()), statuses: vec![status("Resting")] }),
        observed: vec![],
        notes: None,
    };
    let (sigs, reason) = normalize_perp_orders(&rec);
    assert!(reason.is_none());
    assert_eq!(sigs, vec!["perp.order.IOC:true:tp".to_string()]);
}

#[test]
fn normalize_cancel_and_transfer_and_leverage() {
    let cancel = record("cancel_all", RequestPayload::Other, Some(ok_ack(vec![])));
    let e = normalize_action(&cancel, 200);
    assert_eq!(e.signatures, vec!["perp.cancel.all".to_string()]);
    assert!(!e.ignored);

    let transfer = record(
        "usd_class_transfer",
        RequestPayload::UsdClassTransfer { to_perp: Some(false), usdc: Some(25_000_000) },
        Some(ok_ack(vec![])),
    );
    let e2 = normalize_action(&transfer, 200);
    assert_eq!(
        e2.signatures,
        vec!["account.usdClassTransfer.fromPerp".to_string()]
    );

    // An absent direction defaults to toPerp.
    let transfer2 = record(
        "usd_class_transfer",
        RequestPayload::UsdClassTransfer { to_perp: None, usdc: None },
        Some(ok_ack(vec![])),
    );
    let e3 = normalize_action(&transfer2, 200);
    assert_eq!(
        e3.signatures,
        vec!["account.usdClassTransfer.toPerp".to_string()]
    );

    let leverage = record(
        "set_leverage",
        RequestPayload::SetLeverage { coin: Some("eth".to_string()) },
        Some(ok_ack(vec![])),
    );
    let e4 = normalize_action(&leverage, 200);
    assert_eq!(e4.signatures, vec!["risk.setLeverage.ETH".to_string()]);

    let leverage2 = record("set_leverage", RequestPayload::Other, Some(ok_ack(vec![])));
    let e5 = normalize_action(&leverage2, 200);
    assert_eq!(e5.signatures, vec!["risk.setLeverage.UNKNOWN".to_string()]);
}

#[test]
fn normalize_unsupported_action() {
    let rec = record("mystery", RequestPayload::Other, Some(ok_ack(vec![])));
    let e = normalize_action(&rec, 200);
    assert!(e.signatures.is_empty());
    assert!(e.ignored);
    assert!(matches!(e.reason, Some(NormalizeError::UnsupportedAction(_))));
    assert_eq!(
        e.reason.unwrap().describe(),
        "unsupported action 'mystery'"
    );
}

#[test]
fn normalize_recomputes_window_key() {
    let mut rec = record("cancel_last", RequestPayload::Other, Some(ok_ack(vec![])));
    rec.submit_ts_ms = 1234;
    rec.window_key_ms = 999_999;  // stale input value
    let e = normalize_action(&rec, 200);
    assert_eq!(e.window_key_ms, 1200);
    assert_eq!(e.submit_ts_ms, 1234);
}

#[test]
fn normalize_records_keeps_order_and_cardinality() {
    let recs = vec![
        record("cancel_last", RequestPayload::Other, Some(ok_ack(vec![]))),
        record("mystery", RequestPayload::Other, None),
        record("cancel_oids", RequestPayload::Other, Some(ok_ack(vec![]))),
    ];
    let out: Vec<EvalActionRecord> = normalize_records(&recs, 200);
    assert_eq!(out.len(), 3);
    assert_eq!(out[0].signatures, vec!["perp.cancel.last".to_string()]);
    assert!(out[1].ignored);
    assert_eq!(out[2].signatures, vec!["perp.cancel.oids".to_string()]);
}
