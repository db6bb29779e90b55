//! Allow-patterns and the domain registry. A pattern is a dot-separated
//! list of segments, each a case-insensitive literal or a one-segment
//! wildcard `*`; a trailing `*` additionally matches any longer suffix.

use vstd::prelude::*;
use crate::text::eq_ignore_case;
use crate::text::split_on;
use crate::text::split_str;
use crate::text::str_eq;
use crate::text::str_eq_ignore_case;
use crate::text::lemma_split_on_len;

verus! {

#[derive(Debug, Clone)]
pub enum PatternSegment {
    Literal(String),
    Wildcard,
}

#[derive(Debug, Clone)]
pub struct Pattern {
    pub segments: Vec<PatternSegment>,
    pub tail_wildcard: bool,
}

/// Whether one pattern segment accepts one signature segment.
pub open spec fn seg_matches(seg: PatternSegment, part: Seq<char>) -> bool {
    match seg {
        PatternSegment::Literal(l) => eq_ignore_case(l@, part),
        PatternSegment::Wildcard => true,
    }
}

impl Pattern {
    /// Whether the pattern accepts the signature: segment counts must agree
    /// (or the signature may be longer under a tail wildcard), and every
    /// literal must equal its segment up to ASCII case.
    pub open spec fn spec_matches(&self, sig: Seq<char>) -> bool {
        let parts = split_on(sig, '.');
        &&& if self.tail_wildcard {
            parts.len() >= self.segments@.len()
        } else {
            parts.len() == self.segments@.len()
        }
        &&& forall|i: int|
            0 <= i < self.segments@.len() ==> seg_matches(self.segments@[i], parts[i])
    }

    pub fn matches(&self, signature: &str) -> (r: bool)
        ensures
            r == self.spec_matches(signature@),
    {
        let parts = split_str(signature, '.');
        let ghost sparts = split_on(signature@, '.');
        if !self.tail_wildcard && parts.len() != self.segments.len() {
            return false;
        }
        if self.tail_wildcard && parts.len() < self.segments.len() {
            return false;
        }
        let mut i: usize = 0;
        while i < self.segments.len()
            invariant
                i <= self.segments@.len(),
                forall|j: int| 0 <= j < i ==> seg_matches(self.segments@[j], sparts[j]),
            decreases self.segments@.len() - i,
        {
            proof {
                assert(sparts[i as int] == parts@.map_values(|p: String| p@)[i as int]);
            }
            match &self.segments[i] {
                PatternSegment::Literal(l) => {
                    if !str_eq_ignore_case(l.as_str(), parts[i].as_str()) {
                        return false;
                    }
                },
                PatternSegment::Wildcard => {},
            }
            i = i + 1;
        }
        true
    }
}

/// Errors found while loading the registry configuration; all are fatal and
/// surface before any record is processed.
#[derive(Debug, Clone, PartialEq, Eq, Structural)]
pub enum ConfigError {
    EmptyPatternSegment,
    DomainWithoutPatterns,
    NonPositiveWindow,
    ZeroCap,
}

impl ConfigError {
    pub fn describe(&self) -> (r: &'static str)
        ensures
            r@ == self.describe_text(),
    {
        match self {
            ConfigError::EmptyPatternSegment => "pattern segment cannot be empty",
            ConfigError::DomainWithoutPatterns => "domain must have at least one allow pattern",
            ConfigError::NonPositiveWindow => "window_ms must be positive",
            ConfigError::ZeroCap => "cap_per_sig must be positive",
        }
    }

    pub open spec fn describe_text(&self) -> Seq<char> {
        match self {
            ConfigError::EmptyPatternSegment => "pattern segment cannot be empty"@,
            ConfigError::DomainWithoutPatterns => "domain must have at least one allow pattern"@,
            ConfigError::NonPositiveWindow => "window_ms must be positive"@,
            ConfigError::ZeroCap => "cap_per_sig must be positive"@,
        }
    }
}

/// The segments of an allow-pattern after the tail wildcard, if any, has
/// been removed: a trailing `*` is dropped unless it is the whole pattern.
pub open spec fn pattern_parts(s: Seq<char>) -> Seq<Seq<char>> {
    let parts = split_on(s, '.');
    if parts.len() > 1 && parts.last() == "*"@ {
        parts.drop_last()
    } else {
        parts
    }
}

/// Whether the pattern text ends in a tail wildcard.
pub open spec fn pattern_tail(s: Seq<char>) -> bool {
    split_on(s, '.').last() == "*"@
}

/// An allow-pattern text is well formed when no segment is empty.
pub open spec fn pattern_ok(s: Seq<char>) -> bool {
    forall|i: int| 0 <= i < pattern_parts(s).len() ==> pattern_parts(s)[i].len() != 0
}

/// The relation between a parsed pattern and the text it came from.
pub open spec fn is_parsed(p: Pattern, s: Seq<char>) -> bool {
    &&& p.tail_wildcard == pattern_tail(s)
    &&& p.segments@.len() == pattern_parts(s).len()
    &&& forall|i: int|
        0 <= i < p.segments@.len() ==> ((#[trigger] p.segments@[i]) is Wildcard <==> pattern_parts(
            s,
        )[i] == "*"@)
    &&& forall|i: int|
        0 <= i < p.segments@.len() ==> (#[trigger] p.segments@[i] matches PatternSegment::Literal(
            l,
        ) ==> l@ == pattern_parts(s)[i])
}

/// Parses one allow-pattern. Fails exactly when a segment is empty.
pub fn parse_pattern(pattern: &str) -> (r: Result<Pattern, ConfigError>)
    ensures
        r is Ok <==> pattern_ok(pattern@),
        r matches Ok(p) ==> is_parsed(p, pattern@),
        r is Err ==> r == Result::<Pattern, ConfigError>::Err(ConfigError::EmptyPatternSegment),
{
    let mut parts = split_str(pattern, '.');
    proof {
        lemma_split_on_len(pattern@, '.');
    }
    let last_idx = parts.len() - 1;
    let tail_wildcard = str_eq(parts[last_idx].as_str(), "*");
    if tail_wildcard && parts.len() > 1 {
        let ghost before = parts@;
        parts.pop();
        proof {
            assert(parts@.map_values(|p: String| p@) =~~= before.map_values(
                |p: String| p@,
            ).drop_last());
        }
    }
    let ghost pparts = pattern_parts(pattern@);
    assert(parts@.map_values(|p: String| p@) == pparts);
    let mut segments: Vec<PatternSegment> = Vec::new();
    let mut i: usize = 0;
    while i < parts.len()
        invariant
            i <= parts@.len(),
            segments@.len() == i,
            forall|j: int| 0 <= j < i ==> pparts[j].len() != 0,
            forall|j: int|
                0 <= j < i ==> ((#[trigger] segments@[j]) is Wildcard <==> pparts[j] == "*"@),
            forall|j: int|
                0 <= j < i ==> (#[trigger] segments@[j] matches PatternSegment::Literal(l) ==> l@
                    == pparts[j]),
        decreases parts@.len() - i,
    {
        proof {
            assert(pparts[i as int] == parts@.map_values(|p: String| p@)[i as int]);
        }
        if str_eq(parts[i].as_str(), "*") {
            segments.push(PatternSegment::Wildcard);
            proof {
                reveal_strlit("*");
            }
        } else if parts[i].as_str().unicode_len() == 0 {
            proof {
                assert(pparts[i as int].len() == 0);
            }
            return Err(ConfigError::EmptyPatternSegment);
        } else {
            let lit = parts[i].clone();
            segments.push(PatternSegment::Literal(lit));
        }
        i = i + 1;
    }
    Ok(Pattern { segments, tail_wildcard })
}

/// One scored capability bucket: a name, a non-negative weight in
/// micro-units, and the allow-patterns backing it.
#[derive(Debug)]
pub struct DomainEntry {
    pub name: String,
    pub weight: u64,
    pub patterns: Vec<Pattern>,
}

/// The domain registry: named, weighted, ordered capability domains.
#[derive(Debug)]
pub struct DomainMatcher {
    pub entries: Vec<DomainEntry>,
}

/// Whether some pattern of the entry accepts the signature.
pub open spec fn domain_matches_sig(e: DomainEntry, sig: Seq<char>) -> bool {
    exists|p: int| 0 <= p < e.patterns@.len() && e.patterns@[p].spec_matches(sig)
}

impl DomainMatcher {
    /// The first entry at or after `from` that matches the signature.
    pub open spec fn spec_first_match(&self, sig: Seq<char>, from: int) -> Option<int>
        decreases self.entries@.len() - from,
    {
        if from < 0 || from >= self.entries@.len() {
            None
        } else if domain_matches_sig(self.entries@[from], sig) {
            Some(from)
        } else {
            self.spec_first_match(sig, from + 1)
        }
    }

    /// The first entry at or after `from` that matches the signature and is
    /// not the unscored catch-all named `_other`.
    pub open spec fn spec_first_non_other(&self, sig: Seq<char>, from: int) -> Option<int>
        decreases self.entries@.len() - from,
    {
        if from < 0 || from >= self.entries@.len() {
            None
        } else if domain_matches_sig(self.entries@[from], sig) && self.entries@[from].name@
            != "_other"@ {
            Some(from)
        } else {
            self.spec_first_non_other(sig, from + 1)
        }
    }

    /// Domain resolution: the first non-catch-all match if any, else the
    /// first match, else none. A pure function of the registry and the
    /// signature alone.
    pub open spec fn spec_domain_for(&self, sig: Seq<char>) -> Option<int> {
        match self.spec_first_non_other(sig, 0) {
            Some(d) => Some(d),
            None => self.spec_first_match(sig, 0),
        }
    }

    /// The domain credited for a signature: none when the signature is
    /// unresolved or resolves to the catch-all.
    pub open spec fn spec_credit(&self, sig: Seq<char>) -> Option<int> {
        match self.spec_domain_for(sig) {
            Some(d) => if self.entries@[d].name@ == "_other"@ {
                None
            } else {
                Some(d)
            },
            None => None,
        }
    }

    /// All entries matching the signature, in registry order.
    pub fn domain_matches(&self, signature: &str) -> (r: Vec<usize>)
        ensures
            forall|k: int|
                0 <= k < r@.len() ==> r@[k] < self.entries@.len() && domain_matches_sig(
                    self.entries@[r@[k] as int],
                    signature@,
                ),
            forall|k1: int, k2: int| 0 <= k1 < k2 < r@.len() ==> r@[k1] < r@[k2],
            forall|d: int|
                0 <= d < self.entries@.len() && domain_matches_sig(self.entries@[d], signature@)
                    ==> r@.contains(d as usize),
    {
        let mut r: Vec<usize> = Vec::new();
        let mut i: usize = 0;
        while i < self.entries.len()
            invariant
                i <= self.entries@.len(),
                forall|k: int|
                    0 <= k < r@.len() ==> r@[k] < i && domain_matches_sig(
                        self.entries@[r@[k] as int],
                        signature@,
                    ),
                forall|k1: int, k2: int| 0 <= k1 < k2 < r@.len() ==> r@[k1] < r@[k2],
                forall|d: int|
                    0 <= d < i && domain_matches_sig(self.entries@[d], signature@) ==> r@.contains(
                        d as usize,
                    ),
            decreases self.entries@.len() - i,
        {
            if entry_matches(&self.entries[i], signature) {
                let ghost old_r = r@;
                r.push(i);
                proof {
                    assert forall|d: int|
                        0 <= d < i + 1 && domain_matches_sig(
                            self.entries@[d],
                            signature@,
                        ) implies r@.contains(d as usize) by {
                        if d < i {
                            assert(old_r.contains(d as usize));
                            let k = choose|k: int| 0 <= k < old_r.len() && old_r[k] == d as usize;
                            assert(r@[k] == d as usize);
                        } else {
                            assert(r@[r@.len() - 1] == d as usize);
                        }
                    }
                }
            }
            i = i + 1;
        }
        r
    }

    /// Resolves the signature to at most one domain.
    pub fn domain_for(&self, signature: &str) -> (r: Option<usize>)
        ensures
            match r {
                Some(d) => self.spec_domain_for(signature@) == Some(d as int) && d
                    < self.entries@.len(),
                None => self.spec_domain_for(signature@) is None,
            },
    {
        let mut first: Option<usize> = None;
        let mut i: usize = 0;
        while i < self.entries.len()
            invariant
                i <= self.entries@.len(),
                self.spec_first_non_other(signature@, 0) == self.spec_first_non_other(
                    signature@,
                    i as int,
                ),
                match first {
                    Some(f) => self.spec_first_match(signature@, 0) == Some(f as int) && f < i,
                    None => self.spec_first_match(signature@, 0) == self.spec_first_match(
                        signature@,
                        i as int,
                    ),
                },
            decreases self.entries@.len() - i,
        {
            if entry_matches(&self.entries[i], signature) {
                if !str_eq(self.entries[i].name.as_str(), "_other") {
                    return Some(i);
                }
                if first.is_none() {
                    first = Some(i);
                }
            }
            i = i + 1;
        }
        first
    }
}

/// Whether some pattern of the entry accepts the signature.
pub fn entry_matches(e: &DomainEntry, signature: &str) -> (r: bool)
    ensures
        r == domain_matches_sig(*e, signature@),
{
    let mut p: usize = 0;
    while p < e.patterns.len()
        invariant
            p <= e.patterns@.len(),
            forall|j: int| 0 <= j < p ==> !e.patterns@[j].spec_matches(signature@),
        decreases e.patterns@.len() - p,
    {
        if e.patterns[p].matches(signature) {
            return true;
        }
        p = p + 1;
    }
    false
}

/// One domain of the registry configuration, as read from the file.
#[derive(Debug)]
pub struct RawDomain {
    pub name: String,
    pub weight: u64,
    pub allow: Vec<String>,
}

/// The registry configuration, as read from the file.
#[derive(Debug)]
pub struct RawConfig {
    pub per_action_window_ms: Option<i64>,
    pub per_signature_cap: Option<u64>,
    pub domains: Vec<RawDomain>,
}

/// Settings taken from the configuration, with their defaults filled in.
#[derive(Debug, Clone)]
pub struct ConfigOptions {
    pub window_ms: i64,
    pub per_signature_cap: u64,
}

impl ConfigOptions {
    /// Checks the settings a run will use: the window must be positive and
    /// the cap at least one; either failure is fatal before processing.
    pub fn validate(&self) -> (r: Result<(), ConfigError>)
        ensures
            r is Ok <==> (self.window_ms > 0 && self.per_signature_cap >= 1),
            self.window_ms <= 0 ==> r == Result::<(), ConfigError>::Err(
                ConfigError::NonPositiveWindow,
            ),
            self.window_ms > 0 && self.per_signature_cap == 0 ==> r == Result::<
                (),
                ConfigError,
            >::Err(ConfigError::ZeroCap),
    {
        if self.window_ms <= 0 {
            Err(ConfigError::NonPositiveWindow)
        } else if self.per_signature_cap == 0 {
            Err(ConfigError::ZeroCap)
        } else {
            Ok(())
        }
    }
}

/// The error one raw domain produces, if any: a domain must declare at
/// least one allow-pattern, and each pattern must be well formed.
pub open spec fn domain_error(d: RawDomain) -> Option<ConfigError> {
    if d.allow@.len() == 0 {
        Some(ConfigError::DomainWithoutPatterns)
    } else if exists|p: int| 0 <= p < d.allow@.len() && !pattern_ok(d.allow@[p]@) {
        Some(ConfigError::EmptyPatternSegment)
    } else {
        None
    }
}

/// The first configuration error over the domains, in order.
pub open spec fn config_error(ds: Seq<RawDomain>) -> Option<ConfigError>
    decreases ds.len(),
{
    if ds.len() == 0 {
        None
    } else if domain_error(ds[0]) is Some {
        domain_error(ds[0])
    } else {
        config_error(ds.drop_first())
    }
}

/// The relation between a built registry entry and the raw domain it came
/// from.
pub open spec fn entry_from(e: DomainEntry, d: RawDomain) -> bool {
    &&& e.name@ == d.name@
    &&& e.weight == d.weight
    &&& e.patterns@.len() == d.allow@.len()
    &&& forall|p: int| 0 <= p < e.patterns@.len() ==> is_parsed(#[trigger] e.patterns@[p], d.allow@[p]@)
}

/// Builds the registry from the raw configuration. Fails exactly when a
/// domain declares no allow-patterns or a pattern has an empty segment, and
/// reports the first such error in configuration order.
pub fn from_config(raw: &RawConfig) -> (r: Result<(DomainMatcher, ConfigOptions), ConfigError>)
    ensures
        r is Err <==> config_error(raw.domains@) is Some,
        r matches Err(e) ==> Some(e) == config_error(raw.domains@),
        r matches Ok(mo) ==> {
            &&& mo.0.entries@.len() == raw.domains@.len()
            &&& forall|d: int|
                0 <= d < raw.domains@.len() ==> entry_from(
                    #[trigger] mo.0.entries@[d],
                    raw.domains@[d],
                )
            &&& mo.1.window_ms == match raw.per_action_window_ms {
                Some(w) => w,
                None => 200,
            }
            &&& mo.1.per_signature_cap == match raw.per_signature_cap {
                Some(c) => c,
                None => 3,
            }
        },
{
    let mut entries: Vec<DomainEntry> = Vec::new();
    let mut d: usize = 0;
    proof {
        assert(raw.domains@.skip(0) =~= raw.domains@);
    }
    while d < raw.domains.len()
        invariant
            d <= raw.domains@.len(),
            entries@.len() == d,
            config_error(raw.domains@) == config_error(raw.domains@.skip(d as int)),
            forall|j: int|
                0 <= j < d ==> entry_from(#[trigger] entries@[j], raw.domains@[j]),
        decreases raw.domains@.len() - d,
    {
        proof {
            assert(raw.domains@.skip(d as int)[0] == raw.domains@[d as int]);
        }
        let dom = &raw.domains[d];
        if dom.allow.len() == 0 {
            return Err(ConfigError::DomainWithoutPatterns);
        }
        let mut patterns: Vec<Pattern> = Vec::new();
        let mut p: usize = 0;
        while p < dom.allow.len()
            invariant
                p <= dom.allow@.len(),
                patterns@.len() == p,
                forall|j: int| 0 <= j < p ==> pattern_ok(dom.allow@[j]@),
                forall|j: int|
                    0 <= j < p ==> is_parsed(#[trigger] patterns@[j], dom.allow@[j]@),
            decreases dom.allow@.len() - p,
        {
            match parse_pattern(dom.allow[p].as_str()) {
                Ok(pat) => {
                    patterns.push(pat);
                },
                Err(e) => {
                    return Err(e);
                },
            }
            p = p + 1;
        }
        let name = dom.name.clone();
        let weight = dom.weight;
        entries.push(DomainEntry { name, weight, patterns });
        proof {
            assert(raw.domains@.skip(d as int).drop_first() =~= raw.domains@.skip(d + 1));
        }
        d = d + 1;
    }
    let window_ms = match raw.per_action_window_ms {
        Some(w) => w,
        None => 200,
    };
    let per_signature_cap = match raw.per_signature_cap {
        Some(c) => c,
        None => 3,
    };
    Ok((DomainMatcher { entries }, ConfigOptions { window_ms, per_signature_cap }))
}

} // verus!
