use hl_evaluator::diff::build_diff;
use hl_evaluator::hian::ExpectedPerpOrder;
use hl_evaluator::hian::ExpectedStep;
use hl_evaluator::hian::ExpectedTransfer;
use hl_evaluator::hian::GroundTruth;
use hl_evaluator::hian::NumMatcher;
use hl_evaluator::hian::PxMatcher;
use hl_evaluator::hian::align;
use hl_evaluator::hian::resolve_settings;
use hl_evaluator::record::Ack;
use hl_evaluator::record::AckStatus;
use hl_evaluator::record::ActionLogRecord;
use hl_evaluator::record::Fill;
use hl_evaluator::record::ObservedEntry;
use hl_evaluator::record::OrderReq;
use hl_evaluator::record::RequestPayload;
use hl_evaluator::record::WsEvent;

fn transfer_record(ts: i64, to_perp: bool, usdc_micro: i64, observed_amount: Option<i64>) -> ActionLogRecord {
    let observed = match observed_amount {
        Some(a) => vec![ObservedEntry {
            channel: Some("accountClassTransfer".to_string()),
            to_perp: Some(to_perp),
            usdc: Some(a),
            time: Some(ts + 10),
            px: None,
            sz: None,
            fills: None,
        }],
        None => vec![],
    };
    ActionLogRecord {
        step_idx: 0,
        action: "usd_class_transfer".to_string(),
        submit_ts_ms: ts,
        window_key_ms: ts,
        request: RequestPayload::UsdClassTransfer {
            to_perp: Some(to_perp),
            usdc: Some(usdc_micro),
        },
        ack: Some(Ack { status: Some("ok".to_string()), statuses: vec![] }),
        observed,
        notes: None,
    }
}

fn order_record(ts: i64, status_kind: &str, with_fill: bool) -> ActionLogRecord {
    let order = OrderReq {
        coin: Some("ETH".to_string()),
        side: Some("sell".to_string()),
        tif: Some("IOC".to_string()),
        reduce_only: Some(true),
        sz: Some(10_000),
        trigger_kind: None,
    };
    let status = AckStatus {
        kind: Some(status_kind.to_string()),
        oid: Some(1),
        avg_px: if with_fill { Some("3875.1".to_string()) } else { None },
        total_sz: if with_fill { Some("0.01".to_string()) } else { None },
        status_timestamp: if with_fill { Some(ts + 10) } else { None },
    };
    let observed = if with_fill {
        vec![ObservedEntry {
            channel: Some("userFills".to_string()),
            to_perp: None,
            usdc: None,
            time: None,
            px: None,
            sz: None,
            fills: Some(vec![Fill {
                px: Some("3875.1".to_string()),
                sz: Some("0.01".to_string()),
                time: Some(ts + 10),
                oid: Some(1),
            }]),
        }]
    } else {
        vec![]
    };
    ActionLogRecord {
        step_idx: 1,
        action: "perp_orders".to_string(),
        submit_ts_ms: ts,
        window_key_ms: ts,
        request: RequestPayload::PerpOrders { orders: vec![order] },
        ack: Some(Ack { status: Some("ok".to_string()), statuses: vec![status] }),
        observed,
        notes: None,
    }
}

fn transfer_step(to_perp: bool, eq: Option<i64>, tol: Option<i64>) -> ExpectedStep {
    ExpectedStep {
        usd_class_transfer: Some(ExpectedTransfer {
            to_perp,
            usdc: eq.map(|e| NumMatcher { eq: Some(e), tol, ge: None, le: None }),
        }),
        perp_order: None,
    }
}

fn order_step(require_fill: bool) -> ExpectedStep {
    ExpectedStep {
        usd_class_transfer: None,
        perp_order: Some(ExpectedPerpOrder {
            coin: Some("ETH".to_string()),
            side: Some("sell".to_string()),
            tif: Some("IOC".to_string()),
            reduce_only: Some(true),
            sz: None,
            px: None,
            require_fill: Some(require_fill),
        }),
    }
}

#[test]
fn hian_pass_minimal() {
    let actions = vec![
        transfer_record(1000, true, 25_000_000, Some(25_000_000)),
        order_record(1200, "filled", true),
    ];
    let ground = GroundTruth {
        case_id: Some("sample".to_string()),
        within_ms: None,
        window_ms: None,
        steps: vec![transfer_step(true, Some(25_000_000), Some(100_000)), order_step(true)],
    };
    let settings = resolve_settings(&ground, None, None, None, None, None);
    let out = align(&ground, &actions, &vec![], &settings);
    assert!(out.pass);
    assert_eq!(out.matched.len(), 2);
    assert_eq!(out.matched[0].matched_at, 0);
    assert_eq!(out.matched[1].matched_at, 1);
    assert_eq!(out.matched[0].kind, "usd_class_transfer");
    assert_eq!(out.matched[1].kind, "perp_order");
    assert_eq!(out.matched[1].oid, Some(1));
    assert!(out.missing.is_empty());
    assert_eq!(out.metrics.latency_ms.len(), 2);
    assert_eq!(out.metrics.latency_ms[0], (0, Some(10)));
}

#[test]
fn hian_fail_amount() {
    // Observed 24.9 against an expected 25.0 with a tolerance of 0.01:
    // the step is missing and a diff is produced.
    let actions = vec![transfer_record(1000, true, 24_900_000, Some(24_900_000))];
    let ground = GroundTruth {
        case_id: None,
        within_ms: None,
        window_ms: None,
        steps: vec![transfer_step(true, Some(25_000_000), Some(10_000))],
    };
    let settings = resolve_settings(&ground, None, None, None, None, None);
    let out = align(&ground, &actions, &vec![], &settings);
    assert!(!out.pass);
    assert_eq!(out.missing.len(), 1);
    assert!(out.missing[0].reason.contains("not within"));
    let diff = build_diff(&ground, &actions, &out.missing);
    assert!(diff.starts_with("HiaN FAIL (case unknown-case)"));
    assert!(diff.contains("Step 0 expected:"));
    assert!(diff.contains("usd_class_transfer"));
}

#[test]
fn hian_required_fill_missing() {
    // The acknowledgement shows only "resting" and no fill exists in the
    // record or the event stream: the candidate is rejected and the step
    // reported missing with the fill reason.
    let actions = vec![order_record(1000, "resting", false)];
    let ground = GroundTruth {
        case_id: None,
        within_ms: None,
        window_ms: None,
        steps: vec![order_step(true)],
    };
    let settings = resolve_settings(&ground, None, None, None, None, None);
    let out = align(&ground, &actions, &vec![], &settings);
    assert!(!out.pass);
    assert_eq!(
        out.missing[0].reason,
        "order required fill but none observed"
    );
}

#[test]
fn hian_fill_resolved_from_event_stream() {
    let actions = vec![order_record(1000, "resting", false)];
    let ws = vec![WsEvent {
        channel: Some("userFills".to_string()),
        to_perp: None,
        usdc: None,
        time: None,
        fills: Some(vec![Fill {
            px: Some("3875.1".to_string()),
            sz: Some("0.01".to_string()),
            time: Some(1010),
            oid: Some(1),
        }]),
    }];
    let ground = GroundTruth {
        case_id: None,
        within_ms: None,
        window_ms: None,
        steps: vec![order_step(true)],
    };
    let settings = resolve_settings(&ground, None, None, None, None, None);
    let out = align(&ground, &actions, &ws, &settings);
    assert!(out.pass);
    let fill = out.matched[0].fill.as_ref().unwrap();
    assert_eq!(fill.px.as_deref(), Some("3875.1"));
    assert_eq!(out.metrics.latency_ms[0], (0, Some(10)));
}

#[test]
fn hian_transfer_resolved_from_event_stream() {
    let actions = vec![transfer_record(1000, true, 25_000_000, None)];
    let ws = vec![WsEvent {
        channel: Some("accountClassTransfer".to_string()),
        to_perp: Some(true),
        usdc: Some(25_000_000),
        time: Some(1500),
        fills: None,
    }];
    let ground = GroundTruth {
        case_id: None,
        within_ms: None,
        window_ms: None,
        steps: vec![transfer_step(true, Some(25_000_000), Some(100_000))],
    };
    let settings = resolve_settings(&ground, None, None, None, None, None);
    let out = align(&ground, &actions, &ws, &settings);
    assert!(out.pass);
}

#[test]
fn hian_forward_only_cursor() {
    // Two matching transfers: the first step takes position 0, the second
    // must take a strictly later position, and a third has nothing left.
    let actions = vec![
        transfer_record(1000, true, 25_000_000, Some(25_000_000)),
        transfer_record(1100, true, 25_000_000, Some(25_000_000)),
    ];
    let ground = GroundTruth {
        case_id: None,
        within_ms: None,
        window_ms: None,
        steps: vec![
            transfer_step(true, None, None),
            transfer_step(true, None, None),
            transfer_step(true, None, None),
        ],
    };
    let settings = resolve_settings(&ground, None, None, None, None, None);
    let out = align(&ground, &actions, &vec![], &settings);
    assert!(!out.pass);
    assert_eq!(out.matched.len(), 2);
    assert!(out.matched[0].matched_at < out.matched[1].matched_at);
    assert_eq!(out.matched[0].matched_at, 0);
    assert_eq!(out.matched[1].matched_at, 1);
    assert_eq!(out.missing.len(), 1);
    assert_eq!(out.missing[0].expect_idx, 2);
}

#[test]
fn hian_timing_window_aborts_scan() {
    // The second expected transfer stands too long after the first match.
    let actions = vec![
        transfer_record(1000, true, 25_000_000, Some(25_000_000)),
        transfer_record(9000, true, 25_000_000, Some(25_000_000)),
    ];
    let ground = GroundTruth {
        case_id: None,
        within_ms: Some(2000),
        window_ms: None,
        steps: vec![transfer_step(true, None, None), transfer_step(true, None, None)],
    };
    let settings = resolve_settings(&ground, None, None, None, None, None);
    assert_eq!(settings.within_ms, 2000);
    let out = align(&ground, &actions, &vec![], &settings);
    assert!(!out.pass);
    assert_eq!(
        out.missing[0].reason,
        "no matching action within 2000 ms after previous step"
    );
}

#[test]
fn hian_direction_mismatch() {
    let actions = vec![transfer_record(1000, false, 25_000_000, Some(25_000_000))];
    let ground = GroundTruth {
        case_id: None,
        within_ms: None,
        window_ms: None,
        steps: vec![transfer_step(true, None, None)],
    };
    let settings = resolve_settings(&ground, None, None, None, None, None);
    let out = align(&ground, &actions, &vec![], &settings);
    assert!(!out.pass);
    assert_eq!(
        out.missing[0].reason,
        "toPerp mismatch (expected true, got false)"
    );
}

#[test]
fn num_matcher_bounds_and_tolerance() {
    let settings = resolve_settings(
        &GroundTruth { case_id: None, within_ms: None, window_ms: None, steps: vec![] },
        None,
        None,
        None,
        None,
        None,
    );
    let ge = NumMatcher { eq: None, tol: None, ge: Some(5_000_000), le: None };
    assert!(ge.matches_amount(5_000_000, &settings).is_ok());
    let err = ge.matches_amount(4_999_999, &settings).unwrap_err();
    assert_eq!(err, "value 4.999999 < ge 5.000000");

    let le = NumMatcher { eq: None, tol: None, ge: None, le: Some(5_000_000) };
    assert!(le.matches_amount(5_000_000, &settings).is_ok());
    assert!(le.matches_amount(5_000_001, &settings).is_err());

    // The default amount tolerance is 0.01.
    let eq = NumMatcher { eq: Some(25_000_000), tol: None, ge: None, le: None };
    assert!(eq.matches_amount(25_010_000, &settings).is_ok());
    assert!(eq.matches_amount(25_010_001, &settings).is_err());

    // The default size tolerance is 0.5 percent of the target.
    let sz = NumMatcher { eq: Some(10_000_000), tol: None, ge: None, le: None };
    assert!(sz.matches_size(10_050_000, &settings).is_ok());
    assert!(sz.matches_size(10_050_001, &settings).is_err());
}

#[test]
fn px_matcher_modes() {
    let settings = resolve_settings(
        &GroundTruth { case_id: None, within_ms: None, window_ms: None, steps: vec![] },
        None,
        None,
        None,
        None,
        None,
    );
    let ignore = PxMatcher { mode: None, val: None };
    assert!(ignore.matches(None, &settings).is_ok());

    // Mode abs with a 0.2 percent default tolerance around 1000.0.
    let abs = PxMatcher { mode: Some("ABS".to_string()), val: Some(1_000_000_000) };
    assert!(abs.matches(Some(1_002_000_000), &settings).is_ok());
    assert!(abs.matches(Some(1_002_000_001), &settings).is_err());
    assert_eq!(
        abs.matches(None, &settings).unwrap_err(),
        "no price observed"
    );

    let no_val = PxMatcher { mode: Some("abs".to_string()), val: None };
    assert_eq!(
        no_val.matches(Some(1), &settings).unwrap_err(),
        "px matcher requires val when mode=abs"
    );

    let odd = PxMatcher { mode: Some("Weird".to_string()), val: None };
    assert_eq!(
        odd.matches(Some(1), &settings).unwrap_err(),
        "unsupported px matcher mode 'weird'"
    );
}

#[test]
fn hian_empty_steps_pass_and_empty_log_misses() {
    let settings = resolve_settings(
        &GroundTruth { case_id: None, within_ms: None, window_ms: None, steps: vec![] },
        None,
        None,
        None,
        None,
        None,
    );
    let empty_ground = GroundTruth {
        case_id: None,
        within_ms: None,
        window_ms: None,
        steps: vec![],
    };
    let out = align(&empty_ground, &vec![], &vec![], &settings);
    assert!(out.pass);
    assert!(out.matched.is_empty());
    assert!(out.missing.is_empty());

    let one_step = GroundTruth {
        case_id: None,
        within_ms: None,
        window_ms: None,
        steps: vec![transfer_step(true, None, None)],
    };
    let out2 = align(&one_step, &vec![], &vec![], &settings);
    assert!(!out2.pass);
    assert_eq!(out2.missing[0].reason, "not found");
}

#[test]
fn hian_observed_fill_direct_shape() {
    // An observed userFills payload carrying px and sz directly, without a
    // fills list, still resolves the required fill.
    let mut action = order_record(1000, "resting", false);
    action.observed = vec![ObservedEntry {
        channel: Some("userFills".to_string()),
        to_perp: None,
        usdc: None,
        time: Some(1020),
        px: Some("3875.1".to_string()),
        sz: Some("0.01".to_string()),
        fills: None,
    }];
    let ground = GroundTruth {
        case_id: None,
        within_ms: None,
        window_ms: None,
        steps: vec![order_step(true)],
    };
    let settings = resolve_settings(&ground, None, None, None, None, None);
    let out = align(&ground, &vec![action], &vec![], &settings);
    assert!(out.pass);
    assert_eq!(out.metrics.latency_ms[0], (0, Some(20)));
}

#[test]
fn hian_ws_transfer_without_direction_stops_search() {
    // An event-stream transfer entry without a direction ends the lookup
    // empty, so the step is missing for want of an observed event.
    let actions = vec![transfer_record(1000, true, 25_000_000, None)];
    let ws = vec![
        WsEvent {
            channel: Some("accountClassTransfer".to_string()),
            to_perp: None,
            usdc: Some(25_000_000),
            time: Some(1010),
            fills: None,
        },
        WsEvent {
            channel: Some("accountClassTransfer".to_string()),
            to_perp: Some(true),
            usdc: Some(25_000_000),
            time: Some(1020),
            fills: None,
        },
    ];
    let ground = GroundTruth {
        case_id: None,
        within_ms: None,
        window_ms: None,
        steps: vec![transfer_step(true, None, None)],
    };
    let settings = resolve_settings(&ground, None, None, None, None, None);
    let out = align(&ground, &actions, &ws, &settings);
    assert!(!out.pass);
    assert_eq!(out.missing[0].reason, "no observed transfer event");
}

#[test]
fn hian_size_filter_skips_to_next_order() {
    // Two orders in one action: the first fails the size matcher, the
    // second passes every filter; the scan skips to the second position.
    let mk_order = |sz: i64| OrderReq {
        coin: Some("ETH".to_string()),
        side: Some("sell".to_string()),
        tif: Some("IOC".to_string()),
        reduce_only: Some(true),
        sz: Some(sz),
        trigger_kind: None,
    };
    let status = |oid: u64| AckStatus {
        kind: Some("resting".to_string()),
        oid: Some(oid),
        avg_px: None,
        total_sz: None,
        status_timestamp: None,
    };
    let action = ActionLogRecord {
        step_idx: 0,
        action: "perp_orders".to_string(),
        submit_ts_ms: 1000,
        window_key_ms: 1000,
        request: RequestPayload::PerpOrders {
            orders: vec![mk_order(99_000_000), mk_order(10_000)],
        },
        ack: Some(Ack {
            status: Some("ok".to_string()),
            statuses: vec![status(1), status(2)],
        }),
        observed: vec![],
        notes: None,
    };
    let mut step = order_step(false);
    step.perp_order.as_mut().unwrap().sz = Some(NumMatcher {
        eq: Some(10_000),
        tol: Some(0),
        ge: None,
        le: None,
    });
    let ground = GroundTruth { case_id: None, within_ms: None, window_ms: None, steps: vec![step] };
    let settings = resolve_settings(&ground, None, None, None, None, None);
    let out = align(&ground, &vec![action], &vec![], &settings);
    assert!(out.pass);
    assert_eq!(out.matched[0].oid, Some(2));
}

#[test]
fn hian_ws_transfer_radius_follows_within_ms() {
    // The event-stream correlation radius is the configured within_ms: an
    // event 1500 ms away is out of range under within_ms = 100.
    let actions = vec![transfer_record(1000, true, 25_000_000, None)];
    let ws = vec![WsEvent {
        channel: Some("accountClassTransfer".to_string()),
        to_perp: Some(true),
        usdc: Some(25_000_000),
        time: Some(2500),
        fills: None,
    }];
    let ground = GroundTruth {
        case_id: None,
        within_ms: Some(100),
        window_ms: None,
        steps: vec![transfer_step(true, None, None)],
    };
    let settings = resolve_settings(&ground, None, None, None, None, None);
    assert_eq!(settings.within_ms, 100);
    let out = align(&ground, &actions, &ws, &settings);
    assert!(!out.pass);
    assert_eq!(out.missing[0].reason, "no observed transfer event");

    // Under a wide enough within_ms the same event is accepted.
    let wide = GroundTruth {
        case_id: None,
        within_ms: Some(2000),
        window_ms: None,
        steps: vec![transfer_step(true, None, None)],
    };
    let wide_settings = resolve_settings(&wide, None, None, None, None, None);
    let out2 = align(&wide, &actions, &ws, &wide_settings);
    assert!(out2.pass);
}

#[test]
fn diff_context_shows_most_recent_actions() {
    let actions = vec![
        transfer_record(1000, true, 1_000_000, Some(1_000_000)),
        transfer_record(2000, true, 2_000_000, Some(2_000_000)),
        transfer_record(3000, true, 3_000_000, Some(3_000_000)),
        transfer_record(4000, true, 4_000_000, Some(4_000_000)),
        transfer_record(5000, true, 5_000_000, Some(5_000_000)),
    ];
    let ground = GroundTruth {
        case_id: Some("ctx".to_string()),
        within_ms: None,
        window_ms: None,
        steps: vec![transfer_step(false, None, None)],
    };
    let settings = resolve_settings(&ground, None, None, None, None, None);
    let out = align(&ground, &actions, &vec![], &settings);
    assert!(!out.pass);
    let diff = build_diff(&ground, &actions, &out.missing);
    // The three most recent actions appear, the first two do not.
    assert!(diff.contains("#2 "));
    assert!(diff.contains("#3 "));
    assert!(diff.contains("#4 "));
    assert!(!diff.contains("#0 "));
    assert!(!diff.contains("#1 "));
    assert!(diff.contains("@5000"));
}

#[test]
fn settings_override_order() {
    let ground = GroundTruth {
        case_id: None,
        within_ms: Some(500),
        window_ms: Some(100),
        steps: vec![],
    };
    let s = resolve_settings(&ground, Some(900), None, Some(20_000), None, None);
    assert_eq!(s.within_ms, 900);  // explicit override wins
    assert_eq!(s.window_ms, 100);  // file value wins over the default
    assert_eq!(s.amount_tolerance, 20_000);
    assert_eq!(s.px_tolerance_pct, 200_000);
    assert_eq!(s.sz_tolerance_pct, 500_000);
}
