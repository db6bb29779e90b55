use hl_evaluator::normalize::normalize_records;
use hl_evaluator::pattern::RawConfig;
use hl_evaluator::pattern::RawDomain;
use hl_evaluator::pattern::from_config;
use hl_evaluator::plan::OrderPrice;
use hl_evaluator::plan::OrderSide;
use hl_evaluator::plan::PerpTif;
use hl_evaluator::plan::split_spec;
use hl_evaluator::record::Ack;
use hl_evaluator::record::AckStatus;
use hl_evaluator::record::ActionLogRecord;
use hl_evaluator::record::OrderReq;
use hl_evaluator::record::RequestPayload;
use hl_evaluator::score::score_records;
use hl_evaluator::sig::Signature;
use hl_evaluator::sig::normalize_tif;
use hl_evaluator::sig::normalize_trigger;
use hl_evaluator::text::parse_fixed;
use hl_evaluator::text::fixed_to_text;
use hl_evaluator::time::window_start_ms;

#[test]
fn signature_constructors() {
    let s = Signature::perp_order("gtc", false, "none");
    assert_eq!(s.as_str(), "perp.order.GTC:false:none");
    assert_eq!(s.into_inner(), "perp.order.GTC:false:none".to_string());
    assert_eq!(Signature::perp_cancel("last").as_str(), "perp.cancel.last");
    assert_eq!(
        Signature::account_usd_class_transfer("fromPerp").as_str(),
        "account.usdClassTransfer.fromPerp"
    );
    assert_eq!(
        Signature::risk_set_leverage("eth").as_str(),
        "risk.setLeverage.ETH"
    );
}

#[test]
fn tif_and_trigger_normalization() {
    assert_eq!(normalize_tif("alo"), "ALO");
    assert_eq!(normalize_tif("Ioc"), "IOC");
    assert_eq!(normalize_tif("whatever"), "GTC");
    assert_eq!(normalize_trigger(&Some("Tp".to_string())), "tp");
    assert_eq!(normalize_trigger(&None), "none");
}

#[test]
fn window_start_rounds_toward_zero() {
    assert_eq!(window_start_ms(1234, 200), 1200);
    assert_eq!(window_start_ms(1000, 200), 1000);
    assert_eq!(window_start_ms(199, 200), 0);
    assert_eq!(window_start_ms(-250, 200), -200);
    assert_eq!(window_start_ms(1234, 0), 1234);
}

#[test]
fn fixed_point_parse_and_render() {
    assert_eq!(parse_fixed("25.0"), Some(25_000_000));
    assert_eq!(parse_fixed("3875.1"), Some(3_875_100_000));
    assert_eq!(parse_fixed("0.01"), Some(10_000));
    assert_eq!(parse_fixed("-1.5"), Some(-1_500_000));
    assert_eq!(parse_fixed("+7"), Some(7_000_000));
    assert_eq!(parse_fixed(".5"), Some(500_000));
    assert_eq!(parse_fixed("2."), Some(2_000_000));
    assert_eq!(parse_fixed("0.1234567"), Some(123_456));
    assert_eq!(parse_fixed(""), None);
    assert_eq!(parse_fixed("."), None);
    assert_eq!(parse_fixed("1.2.3"), None);
    assert_eq!(parse_fixed("12a"), None);
    assert_eq!(fixed_to_text(25_000_000), "25.000000");
    assert_eq!(fixed_to_text(-10_000), "-0.010000");
}

#[test]
fn plan_step_accessors() {
    assert_eq!(PerpTif::Gtc.as_sdk_str(), "Gtc");
    assert_eq!(PerpTif::Alo.as_sdk_str(), "Alo");
    assert!(OrderSide::Buy.as_bool());
    assert!(!OrderSide::Sell.as_bool());
    let abs = OrderPrice::Absolute(2_000_000);
    assert_eq!(abs.resolve_with_mid(1_000_000), 2_000_000);
    // A +0.5 percent offset against a mid of 1000.0.
    let mid = OrderPrice::MidPercent { offset_pct: 500_000 };
    assert_eq!(mid.resolve_with_mid(1_000_000_000), 1_005_000_000);
    let neg = OrderPrice::MidPercent { offset_pct: -500_000 };
    assert_eq!(neg.resolve_with_mid(1_000_000_000), 995_000_000);
}

#[test]
fn split_spec_selector() {
    assert_eq!(
        split_spec("plans.jsonl:3"),
        ("plans.jsonl".to_string(), Some(3))
    );
    assert_eq!(
        split_spec("plans.jsonl:+3"),
        ("plans.jsonl".to_string(), Some(3))
    );
    assert_eq!(split_spec("plan.json"), ("plan.json".to_string(), None));
    assert_eq!(split_spec("a:b"), ("a:b".to_string(), None));
    assert_eq!(split_spec("a:+"), ("a:+".to_string(), None));
    assert_eq!(split_spec("a:-3"), ("a:-3".to_string(), None));
    assert_eq!(split_spec("dir:5/x"), ("dir:5/x".to_string(), None));
}

#[test]
fn coverage_scenario_unique_signatures() {
    // Two resting GTC orders plus one cancel-all on ok acknowledgements.
    let order = |ts: i64| ActionLogRecord {
        step_idx: 0,
        action: "perp_orders".to_string(),
        submit_ts_ms: ts,
        window_key_ms: 0,
        request: RequestPayload::PerpOrders {
            orders: vec![OrderReq {
                coin: Some("ETH".to_string()),
                side: None,
                tif: Some("GTC".to_string()),
                reduce_only: Some(false),
                sz: None,
                trigger_kind: None,
            }],
        },
        ack: Some(Ack {
            status: Some("ok".to_string()),
            statuses: vec![AckStatus {
                kind: Some("resting".to_string()),
                oid: None,
                avg_px: None,
                total_sz: None,
                status_timestamp: None,
            }],
        }),
        observed: vec![],
        notes: None,
    };
    let cancel = ActionLogRecord {
        step_idx: 2,
        action: "cancel_all".to_string(),
        submit_ts_ms: 2000,
        window_key_ms: 0,
        request: RequestPayload::Other,
        ack: Some(Ack { status: Some("ok".to_string()), statuses: vec![] }),
        observed: vec![],
        notes: None,
    };
    let records = vec![order(0), order(1000), cancel];
    let evals = normalize_records(&records, 200);
    let raw = RawConfig {
        per_action_window_ms: None,
        per_signature_cap: None,
        domains: vec![RawDomain {
            name: "perp".to_string(),
            weight: 1_000_000,
            allow: vec!["perp.*".to_string()],
        }],
    };
    let (matcher, opts) = from_config(&raw).unwrap();
    let (report, _) = score_records(matcher, opts.per_signature_cap, opts.window_ms, &evals);
    assert_eq!(
        report.unique_signatures,
        vec![
            "perp.cancel.all".to_string(),
            "perp.order.GTC:false:none".to_string(),
        ]
    );
}
