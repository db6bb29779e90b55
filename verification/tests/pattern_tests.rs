use hl_evaluator::pattern::ConfigError;
use hl_evaluator::pattern::DomainEntry;
use hl_evaluator::pattern::DomainMatcher;
use hl_evaluator::pattern::RawConfig;
use hl_evaluator::pattern::RawDomain;
use hl_evaluator::pattern::from_config;
use hl_evaluator::pattern::parse_pattern;

#[test]
fn pattern_matching() {
    let pat = parse_pattern("perp.order.*").unwrap();
    assert!(pat.matches("perp.order.GTC:false:none"));
    assert!(pat.matches("PERP.ORDER.gtc:false:none"));
    assert!(!pat.matches("perp.cancel.last"));
}

#[test]
fn pattern_tail_wildcard() {
    let pat = parse_pattern("account.*").unwrap();
    assert!(pat.matches("account.usdClassTransfer.toPerp"));
    assert!(pat.matches("account.usdClassTransfer.toPerp.extra"));
}

#[test]
fn pattern_exact_length_without_tail() {
    let pat = parse_pattern("perp.order").unwrap();
    assert!(pat.matches("perp.order"));
    assert!(!pat.matches("perp.order.GTC:false:none"));
    assert!(!pat.matches("perp"));
}

#[test]
fn pattern_inner_wildcard() {
    let pat = parse_pattern("perp.*.last").unwrap();
    assert!(pat.matches("perp.cancel.last"));
    assert!(pat.matches("perp.order.last"));
    assert!(!pat.matches("perp.cancel.all"));
}

#[test]
fn pattern_empty_segment_rejected() {
    let err = parse_pattern("perp..order").unwrap_err();
    assert!(matches!(err, ConfigError::EmptyPatternSegment));
    assert_eq!(err.describe(), "pattern segment cannot be empty");
    assert!(parse_pattern("").is_err());
}

#[test]
fn pattern_lone_star_is_tail_wildcard() {
    let pat = parse_pattern("*").unwrap();
    assert!(pat.matches("anything"));
    assert!(pat.matches("a.b.c"));
}

#[test]
fn domain_resolution_prefers_non_catch_all() {
    let raw = RawConfig {
        per_action_window_ms: None,
        per_signature_cap: None,
        domains: vec![
            RawDomain {
                name: "_other".to_string(),
                weight: 0,
                allow: vec!["*".to_string()],
            },
            RawDomain {
                name: "perp".to_string(),
                weight: 1_000_000,
                allow: vec!["perp.order.*".to_string()],
            },
        ],
    };
    let (matcher, opts) = from_config(&raw).unwrap();
    assert_eq!(opts.window_ms, 200);
    assert_eq!(opts.per_signature_cap, 3);
    // Both domains match, so the warning case exists, but resolution picks
    // the non-catch-all one.
    assert_eq!(matcher.domain_for("perp.order.GTC:false:none"), Some(1));
    // Only the catch-all matches here.
    assert_eq!(matcher.domain_for("account.someNewAction"), Some(0));
    let both = matcher.domain_matches("perp.order.GTC:false:none");
    assert_eq!(both, vec![0, 1]);
}

#[test]
fn domain_resolution_is_pure_and_repeatable() {
    let matcher = DomainMatcher {
        entries: vec![DomainEntry {
            name: "perp".to_string(),
            weight: 1_000_000,
            patterns: vec![parse_pattern("perp.*").unwrap()],
        }],
    };
    let first = matcher.domain_for("perp.cancel.all");
    let second = matcher.domain_for("perp.cancel.all");
    assert_eq!(first, Some(0));
    assert_eq!(first, second);
    assert_eq!(matcher.domain_for("account.x"), None);
}

#[test]
fn domain_without_patterns_rejected() {
    let raw = RawConfig {
        per_action_window_ms: Some(500),
        per_signature_cap: Some(2),
        domains: vec![RawDomain {
            name: "empty".to_string(),
            weight: 1,
            allow: vec![],
        }],
    };
    let err = from_config(&raw).unwrap_err();
    assert!(matches!(err, ConfigError::DomainWithoutPatterns));
}

#[test]
fn options_validation() {
    let raw = RawConfig {
        per_action_window_ms: Some(0),
        per_signature_cap: Some(3),
        domains: vec![RawDomain {
            name: "d".to_string(),
            weight: 1,
            allow: vec!["a.*".to_string()],
        }],
    };
    let (_, opts) = from_config(&raw).unwrap();
    assert!(matches!(
        opts.validate(),
        Err(ConfigError::NonPositiveWindow)
    ));
    let raw2 = RawConfig {
        per_action_window_ms: Some(200),
        per_signature_cap: Some(0),
        domains: vec![RawDomain {
            name: "d".to_string(),
            weight: 1,
            allow: vec!["a.*".to_string()],
        }],
    };
    let (_, opts2) = from_config(&raw2).unwrap();
    assert!(matches!(opts2.validate(), Err(ConfigError::ZeroCap)));
    assert!(matches!(
        opts2.validate().unwrap_err().describe(),
        "cap_per_sig must be positive"
    ));
}
