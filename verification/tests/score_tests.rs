use hl_evaluator::normalize::EvalActionRecord;
use hl_evaluator::pattern::DomainEntry;
use hl_evaluator::pattern::DomainMatcher;
use hl_evaluator::pattern::parse_pattern;
use hl_evaluator::score::BONUS_PER_EXTRA_MICRO;
use hl_evaluator::score::PENALTY_PER_EXTRA_MICRO;
use hl_evaluator::score::ScoreState;
use hl_evaluator::score::score_records;

fn perp_matcher() -> DomainMatcher {
    DomainMatcher {
        entries: vec![DomainEntry {
            name: "perp".to_string(),
            weight: 1_000_000,
            patterns: vec![parse_pattern("perp.order.*").unwrap()],
        }],
    }
}

fn eval_record(window_key_ms: i64, signatures: Vec<&str>) -> EvalActionRecord {
    EvalActionRecord {
        step_idx: 0,
        action: "perp_orders".to_string(),
        submit_ts_ms: window_key_ms,
        window_key_ms,
        signatures: signatures.into_iter().map(|s| s.to_string()).collect(),
        ignored: false,
        reason: None,
    }
}

#[test]
fn score_state_bonus() {
    let matcher = perp_matcher();
    let mut state = ScoreState::new(matcher, 3, 200);
    let action = eval_record(
        0,
        vec!["perp.order.GTC:false:none", "perp.order.ALO:false:none"],
    );
    state.incorporate(&action);
    let report = state.finalize();
    assert_eq!(report.bonus, BONUS_PER_EXTRA_MICRO as i128);
    assert_eq!(
        report.final_score,
        2_000_000 + BONUS_PER_EXTRA_MICRO as i128
    );
}

#[test]
fn unmapped_signatures_recorded() {
    let matcher = perp_matcher();
    let mut state = ScoreState::new(matcher, 3, 200);
    let action = eval_record(0, vec!["account.someNewAction"]);
    state.incorporate(&action);
    let report = state.finalize();
    assert_eq!(
        report.unmapped_signatures,
        vec!["account.someNewAction".to_string()]
    );
}

#[test]
fn cap_credits_once_and_penalizes_excess() {
    // Five occurrences of one signature under a cap of three: credited
    // once, and two occurrences beyond the cap each cost one penalty unit.
    let matcher = perp_matcher();
    let mut state = ScoreState::new(matcher, 3, 200);
    for i in 0..5 {
        let action = eval_record(i * 1000, vec!["perp.order.GTC:false:none"]);
        state.incorporate(&action);
    }
    let report = state.finalize();
    assert_eq!(report.per_domain.len(), 1);
    assert_eq!(report.per_domain[0].unique_count, 1);
    assert_eq!(report.per_domain[0].contribution, 1_000_000);
    assert_eq!(report.base, 1_000_000);
    assert_eq!(report.penalty, 2 * PENALTY_PER_EXTRA_MICRO as i128);
    assert_eq!(report.bonus, 0);
    assert_eq!(
        report.final_score,
        1_000_000 - 2 * PENALTY_PER_EXTRA_MICRO as i128
    );
}

#[test]
fn window_bonus_scales_with_distinct_signatures() {
    // Two distinct signatures in one window: one bonus unit. Three: two.
    let matcher = perp_matcher();
    let mut state = ScoreState::new(matcher, 3, 200);
    state.incorporate(&eval_record(
        0,
        vec!["perp.order.GTC:false:none", "perp.order.ALO:false:none"],
    ));
    let two = state.finalize();
    assert_eq!(two.bonus, BONUS_PER_EXTRA_MICRO as i128);

    let mut state3 = ScoreState::new(perp_matcher(), 3, 200);
    state3.incorporate(&eval_record(
        0,
        vec![
            "perp.order.GTC:false:none",
            "perp.order.ALO:false:none",
            "perp.order.IOC:false:none",
        ],
    ));
    let three = state3.finalize();
    assert_eq!(three.bonus, 2 * BONUS_PER_EXTRA_MICRO as i128);
}

#[test]
fn repeat_crediting_is_idempotent() {
    // The same signature twice in one window: no bonus, one credit.
    let matcher = perp_matcher();
    let mut state = ScoreState::new(matcher, 3, 200);
    state.incorporate(&eval_record(
        0,
        vec!["perp.order.GTC:false:none", "perp.order.GTC:false:none"],
    ));
    let report = state.finalize();
    assert_eq!(report.bonus, 0);
    assert_eq!(report.per_domain[0].unique_count, 1);
    assert_eq!(report.base, 1_000_000);
}

#[test]
fn scorer_is_deterministic_across_runs() {
    let run = |cap: u64| {
        let mut state = ScoreState::new(perp_matcher(), cap, 200);
        state.incorporate(&eval_record(
            0,
            vec!["perp.order.GTC:false:none", "perp.order.ALO:false:none"],
        ));
        state.incorporate(&eval_record(400, vec!["account.someNewAction"]));
        state.finalize()
    };
    let a = run(3);
    let b = run(3);
    assert_eq!(a.final_score, b.final_score);
    assert_eq!(a.base, b.base);
    assert_eq!(a.bonus, b.bonus);
    assert_eq!(a.penalty, b.penalty);
    assert_eq!(a.unique_signatures, b.unique_signatures);
    assert_eq!(a.unmapped_signatures, b.unmapped_signatures);
}

#[test]
fn report_lists_are_sorted() {
    let mut state = ScoreState::new(perp_matcher(), 3, 200);
    state.incorporate(&eval_record(
        0,
        vec!["perp.order.IOC:false:none", "perp.order.ALO:false:none"],
    ));
    state.incorporate(&eval_record(400, vec!["zzz.unmapped", "aaa.unmapped"]));
    let report = state.finalize();
    assert_eq!(
        report.unique_signatures,
        vec![
            "aaa.unmapped".to_string(),
            "perp.order.ALO:false:none".to_string(),
            "perp.order.IOC:false:none".to_string(),
            "zzz.unmapped".to_string(),
        ]
    );
    assert_eq!(
        report.unmapped_signatures,
        vec!["aaa.unmapped".to_string(), "zzz.unmapped".to_string()]
    );
    assert_eq!(
        report.per_domain[0].unique_signatures,
        vec![
            "perp.order.ALO:false:none".to_string(),
            "perp.order.IOC:false:none".to_string(),
        ]
    );
}

#[test]
fn empty_run_scores_zero() {
    let (report, warnings) = score_records(perp_matcher(), 3, 200, &vec![]);
    assert!(warnings.is_empty());
    assert_eq!(report.final_score, 0);
    assert_eq!(report.base, 0);
    assert_eq!(report.bonus, 0);
    assert_eq!(report.penalty, 0);
    assert!(report.unique_signatures.is_empty());
    assert!(report.unmapped_signatures.is_empty());
    assert_eq!(report.per_domain.len(), 1);
    assert_eq!(report.per_domain[0].unique_count, 0);
}

#[test]
fn separate_windows_earn_no_bonus() {
    // The same two distinct signatures, but in different windows.
    let mut state = ScoreState::new(perp_matcher(), 3, 200);
    state.incorporate(&eval_record(0, vec!["perp.order.GTC:false:none"]));
    state.incorporate(&eval_record(400, vec!["perp.order.ALO:false:none"]));
    let report = state.finalize();
    assert_eq!(report.bonus, 0);
    assert_eq!(report.base, 2_000_000);
}

#[test]
fn ambiguous_domain_match_is_collected_as_warning() {
    // Two domains match the same signature: resolution still credits the
    // non-catch-all one, and the run hands out a structured warning.
    let matcher = DomainMatcher {
        entries: vec![
            DomainEntry {
                name: "_other".to_string(),
                weight: 0,
                patterns: vec![parse_pattern("*").unwrap()],
            },
            DomainEntry {
                name: "perp".to_string(),
                weight: 1_000_000,
                patterns: vec![parse_pattern("perp.order.*").unwrap()],
            },
        ],
    };
    let evals = vec![eval_record(0, vec!["perp.order.GTC:false:none"])];
    let (report, warnings) = score_records(matcher, 3, 200, &evals);
    assert_eq!(report.per_domain[1].unique_count, 1);
    assert_eq!(warnings.len(), 1);
    assert_eq!(warnings[0].signature, "perp.order.GTC:false:none");
    assert_eq!(
        warnings[0].names,
        vec!["_other".to_string(), "perp".to_string()]
    );
}

#[test]
fn batch_driver_skips_ignored_records() {
    let mut ignored = eval_record(0, vec!["perp.order.GTC:false:none"]);
    ignored.ignored = true;
    let live = eval_record(0, vec!["perp.order.ALO:false:none"]);
    let (report, _) = score_records(perp_matcher(), 3, 200, &vec![ignored, live]);
    assert_eq!(
        report.unique_signatures,
        vec!["perp.order.ALO:false:none".to_string()]
    );
    assert_eq!(report.base, 1_000_000);
    assert_eq!(report.cap_per_signature, 3);
    assert_eq!(report.window_ms, 200);
}
