//! The ground-truth matcher: aligns an ordered list of expected abstract
//! steps against the action log under timing and tolerance constraints,
//! correlating realized effects across the record's own observed payloads
//! and the auxiliary event-stream log. Amounts, sizes, prices and
//! tolerances are fixed-point integers in micro-units.

use vstd::prelude::*;
use crate::record::ActionLogRecord;
use crate::record::AckStatus;
use crate::record::Fill;
use crate::record::ObservedEntry;
use crate::record::OrderReq;
use crate::record::RequestPayload;
use crate::record::WsEvent;
use crate::text::eq_ignore_case;
use crate::text::fixed_text;
use crate::text::fixed_to_text;
use crate::text::fixed_wide_to_text;
use crate::text::int_text;
use crate::text::int_to_text;
use crate::text::lower_seq;
use crate::text::lower_str;
use crate::text::parse_fixed;
use crate::text::parse_fixed_result;
use crate::text::str_eq;
use crate::text::str_eq_ignore_case;

verus! {

use vstd::string::StringExecFns;

/// A reusable numeric predicate: optional one-sided hard bounds and an
/// optional equality with tolerance; all present parts must hold.
#[derive(Debug)]
pub struct NumMatcher {
    pub eq: Option<i64>,
    pub tol: Option<i64>,
    pub ge: Option<i64>,
    pub le: Option<i64>,
}

/// A price predicate: mode `ignore` always passes; mode `abs` checks a
/// relative-percent tolerance against a target.
#[derive(Debug)]
pub struct PxMatcher {
    pub mode: Option<String>,
    pub val: Option<i64>,
}

#[derive(Debug)]
pub struct ExpectedTransfer {
    pub to_perp: bool,
    pub usdc: Option<NumMatcher>,
}

#[derive(Debug)]
pub struct ExpectedPerpOrder {
    pub coin: Option<String>,
    pub side: Option<String>,
    pub tif: Option<String>,
    pub reduce_only: Option<bool>,
    pub sz: Option<NumMatcher>,
    pub px: Option<PxMatcher>,
    pub require_fill: Option<bool>,
}

/// One expected abstract step of a ground-truth spec.
#[derive(Debug)]
pub struct ExpectedStep {
    pub usd_class_transfer: Option<ExpectedTransfer>,
    pub perp_order: Option<ExpectedPerpOrder>,
}

/// An ordered ground-truth specification.
#[derive(Debug)]
pub struct GroundTruth {
    pub case_id: Option<String>,
    pub within_ms: Option<i64>,
    pub window_ms: Option<i64>,
    pub steps: Vec<ExpectedStep>,
}

/// The settings a validation run uses, with defaults filled in.
#[derive(Debug, Clone)]
pub struct SettingsUsed {
    pub within_ms: i64,
    pub window_ms: i64,
    pub amount_tolerance: i64,
    pub px_tolerance_pct: i64,
    pub sz_tolerance_pct: i64,
}

impl SettingsUsed {
    /// Tolerances are non-negative; checked once when the settings are
    /// loaded, as malformed configuration is fatal.
    pub open spec fn wf(&self) -> bool {
        &&& self.amount_tolerance >= 0
        &&& self.px_tolerance_pct >= 0
        &&& self.sz_tolerance_pct >= 0
    }
}

/// Resolves the settings: an explicit override wins over the file value,
/// which wins over the built-in default.
pub fn resolve_settings(
    ground: &GroundTruth,
    within_ms: Option<i64>,
    window_ms: Option<i64>,
    amount_tol: Option<i64>,
    px_tol_pct: Option<i64>,
    sz_tol_pct: Option<i64>,
) -> (r: SettingsUsed)
    ensures
        r.within_ms == match within_ms {
            Some(v) => v,
            None => match ground.within_ms {
                Some(v) => v,
                None => 2000,
            },
        },
        r.window_ms == match window_ms {
            Some(v) => v,
            None => match ground.window_ms {
                Some(v) => v,
                None => 200,
            },
        },
        r.amount_tolerance == match amount_tol {
            Some(v) => v,
            None => 10000,
        },
        r.px_tolerance_pct == match px_tol_pct {
            Some(v) => v,
            None => 200000,
        },
        r.sz_tolerance_pct == match sz_tol_pct {
            Some(v) => v,
            None => 500000,
        },
{
    let within = match within_ms {
        Some(v) => v,
        None => match ground.within_ms {
            Some(v) => v,
            None => 2000,
        },
    };
    let window = match window_ms {
        Some(v) => v,
        None => match ground.window_ms {
            Some(v) => v,
            None => 200,
        },
    };
    SettingsUsed {
        within_ms: within,
        window_ms: window,
        amount_tolerance: match amount_tol {
            Some(v) => v,
            None => 10000,
        },
        px_tolerance_pct: match px_tol_pct {
            Some(v) => v,
            None => 200000,
        },
        sz_tolerance_pct: match sz_tol_pct {
            Some(v) => v,
            None => 500000,
        },
    }
}

/// The text of a bound-failure reason.
pub open spec fn ge_fail_text(actual: int, ge: int) -> Seq<char> {
    "value "@ + fixed_text(actual) + " < ge "@ + fixed_text(ge)
}

pub open spec fn le_fail_text(actual: int, le: int) -> Seq<char> {
    "value "@ + fixed_text(actual) + " > le "@ + fixed_text(le)
}

pub open spec fn tol_fail_text(actual: int, tol: int, target: int) -> Seq<char> {
    "value "@ + fixed_text(actual) + " not within \u{b1}"@ + fixed_text(tol) + " of "@
        + fixed_text(target)
}

pub open spec fn px_fail_text(actual: int, tol: int, target: int) -> Seq<char> {
    "price "@ + fixed_text(actual) + " not within \u{b1}"@ + fixed_text(tol) + " of "@
        + fixed_text(target)
}

pub open spec fn spec_abs(v: int) -> int {
    if v < 0 {
        -v
    } else {
        v
    }
}

/// The failure a numeric matcher reports for a transfer amount, if any:
/// the hard bounds are checked first, then the tolerance equality, whose
/// default tolerance is the configured amount tolerance.
pub open spec fn num_amount_fail(m: NumMatcher, actual: int, st: SettingsUsed) -> Option<
    Seq<char>,
> {
    if m.ge is Some && actual < m.ge->0 {
        Some(ge_fail_text(actual, m.ge->0 as int))
    } else if m.le is Some && actual > m.le->0 {
        Some(le_fail_text(actual, m.le->0 as int))
    } else if m.eq is Some {
        let tol = match m.tol {
            Some(t) => t as int,
            None => st.amount_tolerance as int,
        };
        if spec_abs(actual - m.eq->0) > tol {
            Some(tol_fail_text(actual, tol, m.eq->0 as int))
        } else {
            None
        }
    } else {
        None
    }
}

/// The failure a numeric matcher reports for an order size, if any: as for
/// amounts, but the default tolerance is the target magnitude scaled by
/// the configured size-tolerance percentage.
pub open spec fn num_size_fail(m: NumMatcher, actual: int, st: SettingsUsed) -> Option<Seq<char>> {
    if m.ge is Some && actual < m.ge->0 {
        Some(ge_fail_text(actual, m.ge->0 as int))
    } else if m.le is Some && actual > m.le->0 {
        Some(le_fail_text(actual, m.le->0 as int))
    } else if m.eq is Some {
        let tol = match m.tol {
            Some(t) => t as int,
            None => spec_abs(m.eq->0 as int) * (st.sz_tolerance_pct as int) / 100000000,
        };
        if spec_abs(actual - m.eq->0) > tol {
            Some(tol_fail_text(actual, tol, m.eq->0 as int))
        } else {
            None
        }
    } else {
        None
    }
}

impl NumMatcher {
    /// Checks a realized transfer amount against the matcher.
    pub fn matches_amount(&self, actual: i64, settings: &SettingsUsed) -> (r: Result<
        (),
        String,
    >)
        ensures
            match r {
                Ok(_) => num_amount_fail(*self, actual as int, *settings) is None,
                Err(e) => Some(e@) == num_amount_fail(*self, actual as int, *settings),
            },
    {
        if let Some(g) = self.ge {
            if actual < g {
                return Err(bound_fail_string("value ", actual, " < ge ", g));
            }
        }
        if let Some(l) = self.le {
            if actual > l {
                return Err(bound_fail_string("value ", actual, " > le ", l));
            }
        }
        if let Some(t) = self.eq {
            let tol: i64 = match self.tol {
                Some(v) => v,
                None => settings.amount_tolerance,
            };
            let diff: i128 = (actual as i128) - (t as i128);
            let ad: i128 = if diff < 0 {
                -diff
            } else {
                diff
            };
            if ad > tol as i128 {
                return Err(tol_fail_string("value ", actual, tol, t));
            }
        }
        Ok(())
    }

    /// Checks a realized order size against the matcher.
    pub fn matches_size(&self, actual: i64, settings: &SettingsUsed) -> (r: Result<(), String>)
        requires
            settings.wf(),
        ensures
            match r {
                Ok(_) => num_size_fail(*self, actual as int, *settings) is None,
                Err(e) => Some(e@) == num_size_fail(*self, actual as int, *settings),
            },
    {
        if let Some(g) = self.ge {
            if actual < g {
                return Err(bound_fail_string("value ", actual, " < ge ", g));
            }
        }
        if let Some(l) = self.le {
            if actual > l {
                return Err(bound_fail_string("value ", actual, " > le ", l));
            }
        }
        if let Some(t) = self.eq {
            let diff: i128 = (actual as i128) - (t as i128);
            let ad: i128 = if diff < 0 {
                -diff
            } else {
                diff
            };
            match self.tol {
                Some(v) => {
                    if ad > v as i128 {
                        return Err(tol_fail_string("value ", actual, v, t));
                    }
                },
                None => {
                    let at: u128 = if t < 0 {
                        (-(t as i128)) as u128
                    } else {
                        t as u128
                    };
                    proof {
                        lemma_scaled_tol_fits(t as int, settings.sz_tolerance_pct as int);
                    }
                    let scaled: u128 = at * (settings.sz_tolerance_pct as u128) / 100000000;
                    if (ad as u128) > scaled {
                        return Err(wide_tol_fail_string("value ", actual, scaled, t));
                    }
                },
            }
        }
        Ok(())
    }
}

/// A magnitude scaled by a percentage of micro-units stays representable.
proof fn lemma_scaled_tol_fits(t: int, pct: int)
    requires
        -0x8000_0000_0000_0000 <= t <= 0x7FFF_FFFF_FFFF_FFFF,
        0 <= pct <= 0x7FFF_FFFF_FFFF_FFFF,
    ensures
        0 <= spec_abs(t) * pct <= 0x8000_0000_0000_0000 * 0x7FFF_FFFF_FFFF_FFFF,
        0 <= spec_abs(t) * pct / 100000000 <= spec_abs(t) * pct,
{
    vstd::arithmetic::mul::lemma_mul_nonnegative(spec_abs(t), pct);
    vstd::arithmetic::mul::lemma_mul_upper_bound(
        spec_abs(t),
        0x8000_0000_0000_0000,
        pct,
        0x7FFF_FFFF_FFFF_FFFF,
    );
    vstd::arithmetic::div_mod::lemma_div_basics_4(spec_abs(t) * pct, 100000000);
    vstd::arithmetic::div_mod::lemma_div_basics_5(spec_abs(t) * pct, 100000000);
}

/// Builds a tolerance-failure message with a wide tolerance value.
fn wide_tol_fail_string(label: &str, actual: i64, tol: u128, target: i64) -> (r: String)
    ensures
        r@ == label@ + fixed_text(actual as int) + " not within \u{b1}"@ + fixed_text(tol as int)
            + " of "@ + fixed_text(target as int),
{
    let mut s = String::new();
    s.append(label);
    let a = fixed_to_text(actual);
    s.append(a.as_str());
    s.append(" not within \u{b1}");
    let t = fixed_wide_to_text(tol);
    s.append(t.as_str());
    s.append(" of ");
    let g = fixed_to_text(target);
    s.append(g.as_str());
    proof {
        assert(s@ =~= label@ + fixed_text(actual as int) + " not within \u{b1}"@ + fixed_text(
            tol as int,
        ) + " of "@ + fixed_text(target as int));
    }
    s
}

/// Builds a bound-failure message: a label, a value, a relation, a bound.
fn bound_fail_string(pre: &str, actual: i64, mid: &str, bound: i64) -> (r: String)
    ensures
        r@ == pre@ + fixed_text(actual as int) + mid@ + fixed_text(bound as int),
{
    let mut s = String::new();
    s.append(pre);
    let a = fixed_to_text(actual);
    s.append(a.as_str());
    s.append(mid);
    let b = fixed_to_text(bound);
    s.append(b.as_str());
    proof {
        assert(s@ =~= pre@ + fixed_text(actual as int) + mid@ + fixed_text(bound as int));
    }
    s
}

/// Builds a tolerance-failure message.
fn tol_fail_string(label: &str, actual: i64, tol: i64, target: i64) -> (r: String)
    ensures
        r@ == label@ + fixed_text(actual as int) + " not within \u{b1}"@ + fixed_text(tol as int)
            + " of "@ + fixed_text(target as int),
{
    let mut s = String::new();
    s.append(label);
    let a = fixed_to_text(actual);
    s.append(a.as_str());
    s.append(" not within \u{b1}");
    let t = fixed_to_text(tol);
    s.append(t.as_str());
    s.append(" of ");
    let g = fixed_to_text(target);
    s.append(g.as_str());
    proof {
        assert(s@ =~= label@ + fixed_text(actual as int) + " not within \u{b1}"@ + fixed_text(
            tol as int,
        ) + " of "@ + fixed_text(target as int));
    }
    s
}

/// The failure a price matcher reports, if any. Mode `ignore` (the
/// default) always passes; mode `abs` requires a target and a realized
/// price and checks a relative-percent tolerance; any other mode is a
/// configuration error.
pub open spec fn px_fail(m: PxMatcher, actual: Option<int>, st: SettingsUsed) -> Option<
    Seq<char>,
> {
    let mode = match m.mode {
        Some(s) => lower_seq(s@),
        None => "ignore"@,
    };
    if mode == "ignore"@ {
        None
    } else if mode == "abs"@ {
        if m.val is None {
            Some("px matcher requires val when mode=abs"@)
        } else if actual is None {
            Some("no price observed"@)
        } else {
            let target = m.val->0 as int;
            let tol = spec_abs(target) * (st.px_tolerance_pct as int) / 100000000;
            if spec_abs(actual->0 - target) > tol {
                Some(px_fail_text(actual->0, tol, target))
            } else {
                None
            }
        }
    } else {
        Some("unsupported px matcher mode '"@ + mode + "'"@)
    }
}

impl PxMatcher {
    /// Checks a realized price against the matcher.
    pub fn matches(&self, actual: Option<i64>, settings: &SettingsUsed) -> (r: Result<
        (),
        String,
    >)
        requires
            settings.wf(),
        ensures
            match r {
                Ok(_) => px_fail(
                    *self,
                    match actual {
                        Some(a) => Some(a as int),
                        None => None,
                    },
                    *settings,
                ) is None,
                Err(e) => Some(e@) == px_fail(
                    *self,
                    match actual {
                        Some(a) => Some(a as int),
                        None => None,
                    },
                    *settings,
                ),
            },
    {
        let mode: String = match &self.mode {
            Some(s) => lower_str(s.as_str()),
            None => {
                let mut m = String::new();
                m.append("ignore");
                proof {
                    assert(m@ =~= "ignore"@);
                }
                m
            },
        };
        if str_eq(mode.as_str(), "ignore") {
            return Ok(());
        }
        if !str_eq(mode.as_str(), "abs") {
            let mut s = String::new();
            s.append("unsupported px matcher mode '");
            s.append(mode.as_str());
            s.append("'");
            proof {
                assert(s@ =~= "unsupported px matcher mode '"@ + mode@ + "'"@);
            }
            return Err(s);
        }
        let target: i64 = match self.val {
            Some(v) => v,
            None => {
                let mut s = String::new();
                s.append("px matcher requires val when mode=abs");
                proof {
                    assert(s@ =~= "px matcher requires val when mode=abs"@);
                }
                return Err(s);
            },
        };
        let a: i64 = match actual {
            Some(v) => v,
            None => {
                let mut s = String::new();
                s.append("no price observed");
                proof {
                    assert(s@ =~= "no price observed"@);
                }
                return Err(s);
            },
        };
        let at: u128 = if target < 0 {
            (-(target as i128)) as u128
        } else {
            target as u128
        };
        proof {
            lemma_scaled_tol_fits(target as int, settings.px_tolerance_pct as int);
        }
        let scaled: u128 = at * (settings.px_tolerance_pct as u128) / 100000000;
        let diff: i128 = (a as i128) - (target as i128);
        let ad: i128 = if diff < 0 {
            -diff
        } else {
            diff
        };
        if (ad as u128) > scaled {
            return Err(wide_tol_fail_string("price ", a, scaled, target));
        }
        Ok(())
    }
}

/// The view of an optional string defaulting to empty text.
pub open spec fn opt_text(o: Option<String>) -> Seq<char> {
    match o {
        Some(s) => s@,
        None => ""@,
    }
}

/// Whether an optional channel tag equals the given name exactly.
pub open spec fn chan_is(c: Option<String>, name: Seq<char>) -> bool {
    match c {
        Some(s) => s@ == name,
        None => false,
    }
}

/// A latency clamped to the non-negative representable range.
pub open spec fn lat_clamp(d: int) -> int {
    if d < 0 {
        0
    } else if d > 0x7FFF_FFFF_FFFF_FFFF {
        0x7FFF_FFFF_FFFF_FFFF
    } else {
        d
    }
}

/// A realized transfer event: its amount and time, either possibly absent.
#[derive(Debug, Clone, Copy)]
pub struct TransferEvent {
    pub usdc: Option<i64>,
    pub time_ms: Option<i64>,
}

/// A realized fill: price and size as the exchange sent them, and a time.
#[derive(Debug)]
pub struct DetailedFill {
    pub px: Option<String>,
    pub sz: Option<String>,
    pub time_ms: Option<i64>,
}

/// The ghost shape of a realized fill.
pub type FillView = (Option<Seq<char>>, Option<Seq<char>>, Option<i64>);

pub open spec fn fill_view(f: DetailedFill) -> FillView {
    (crate::record::opt_view(f.px), crate::record::opt_view(f.sz), f.time_ms)
}

/// The realized transfer among a record's own observed payloads: the first
/// entry on the `accountClassTransfer` channel.
pub open spec fn spec_observed_transfer(obs: Seq<ObservedEntry>) -> Option<(Option<i64>, Option<
    i64,
>)>
    decreases obs.len(),
{
    if obs.len() == 0 {
        None
    } else if chan_is(obs[0].channel, "accountClassTransfer"@) {
        Some((obs[0].usdc, obs[0].time))
    } else {
        spec_observed_transfer(obs.drop_first())
    }
}

/// The realized transfer in the event-stream log: the first
/// `accountClassTransfer` event within an absolute time radius of the
/// configured `within_ms` whose direction matches the request (or the
/// event itself when the request gives none). An event on that channel
/// without a direction ends the search empty.
pub open spec fn spec_ws_transfer(
    a: ActionLogRecord,
    ws: Seq<WsEvent>,
    within_ms: i64,
) -> Option<(Option<i64>, Option<i64>)>
    decreases ws.len(),
{
    if ws.len() == 0 {
        None
    } else if !chan_is(ws[0].channel, "accountClassTransfer"@) {
        spec_ws_transfer(a, ws.drop_first(), within_ms)
    } else {
        match ws[0].to_perp {
            None => None,
            Some(tp) => {
                let in_time = match ws[0].time {
                    Some(t) => spec_abs(t - a.submit_ts_ms) <= within_ms as int,
                    None => true,
                };
                let expected = match a.request {
                    RequestPayload::UsdClassTransfer { to_perp: Some(b), .. } => b,
                    _ => tp,
                };
                if in_time && tp == expected {
                    Some((ws[0].usdc, ws[0].time))
                } else {
                    spec_ws_transfer(a, ws.drop_first(), within_ms)
                }
            },
        }
    }
}

/// The fill an acknowledgement entry itself reports, when it is `filled`.
pub open spec fn spec_status_fill(st: AckStatus) -> Option<FillView> {
    if eq_ignore_case(opt_text(st.kind), "filled"@) {
        Some((crate::record::opt_view(st.avg_px), crate::record::opt_view(st.total_sz), st.status_timestamp))
    } else {
        None
    }
}

/// The first fill among a record's own observed `userFills` payloads.
pub open spec fn spec_observed_fill(obs: Seq<ObservedEntry>) -> Option<FillView>
    decreases obs.len(),
{
    if obs.len() == 0 {
        None
    } else if !chan_is(obs[0].channel, "userFills"@) {
        spec_observed_fill(obs.drop_first())
    } else {
        match obs[0].fills {
            Some(arr) => if arr@.len() > 0 {
                Some((crate::record::opt_view(arr@[0].px), crate::record::opt_view(arr@[0].sz), arr@[0].time))
            } else {
                spec_observed_fill(obs.drop_first())
            },
            None => if obs[0].px is Some || obs[0].sz is Some {
                Some((crate::record::opt_view(obs[0].px), crate::record::opt_view(obs[0].sz), obs[0].time))
            } else {
                spec_observed_fill(obs.drop_first())
            },
        }
    }
}

/// The first usable fill within one event's fill list: a fill carrying a
/// different order id than the acknowledged one is skipped.
pub open spec fn spec_fill_in_list(fills: Seq<Fill>, oid: Option<u64>) -> Option<FillView>
    decreases fills.len(),
{
    if fills.len() == 0 {
        None
    } else {
        match fills[0].oid {
            Some(fo) => if Some(fo) != oid {
                spec_fill_in_list(fills.drop_first(), oid)
            } else {
                Some((crate::record::opt_view(fills[0].px), crate::record::opt_view(fills[0].sz), fills[0].time))
            },
            None => Some((crate::record::opt_view(fills[0].px), crate::record::opt_view(fills[0].sz), fills[0].time)),
        }
    }
}

/// The first matching fill in the event-stream log's `userFills` entries.
pub open spec fn spec_ws_fill(ws: Seq<WsEvent>, oid: Option<u64>) -> Option<FillView>
    decreases ws.len(),
{
    if ws.len() == 0 {
        None
    } else if !chan_is(ws[0].channel, "userFills"@) {
        spec_ws_fill(ws.drop_first(), oid)
    } else {
        match ws[0].fills {
            Some(arr) => match spec_fill_in_list(arr@, oid) {
                Some(f) => Some(f),
                None => spec_ws_fill(ws.drop_first(), oid),
            },
            None => spec_ws_fill(ws.drop_first(), oid),
        }
    }
}

/// Whether an optional channel tag equals the given name, executably.
fn chan_eq(c: &Option<String>, name: &str) -> (r: bool)
    ensures
        r == chan_is(*c, name@),
{
    match c {
        Some(s) => str_eq(s.as_str(), name),
        None => false,
    }
}

/// Resolves the realized transfer from the record's own observed payloads.
pub fn extract_transfer_event(action: &ActionLogRecord) -> (r: Option<TransferEvent>)
    ensures
        match r {
            Some(e) => spec_observed_transfer(action.observed@) == Some((e.usdc, e.time_ms)),
            None => spec_observed_transfer(action.observed@) is None,
        },
{
    let mut i: usize = 0;
    proof {
        assert(action.observed@.skip(0) =~= action.observed@);
    }
    while i < action.observed.len()
        invariant
            i <= action.observed@.len(),
            spec_observed_transfer(action.observed@) == spec_observed_transfer(
                action.observed@.skip(i as int),
            ),
        decreases action.observed@.len() - i,
    {
        proof {
            assert(action.observed@.skip(i as int).drop_first() =~= action.observed@.skip(i + 1));
            assert(action.observed@.skip(i as int)[0] == action.observed@[i as int]);
        }
        let o = &action.observed[i];
        if chan_eq(&o.channel, "accountClassTransfer") {
            return Some(TransferEvent { usdc: o.usdc, time_ms: o.time });
        }
        i = i + 1;
    }
    None
}

/// Resolves the realized transfer from the event-stream log, within an
/// absolute time radius of the configured `within_ms`.
pub fn find_transfer_in_ws(
    action: &ActionLogRecord,
    ws_events: &Vec<WsEvent>,
    settings: &SettingsUsed,
) -> (r: Option<TransferEvent>)
    ensures
        match r {
            Some(e) => spec_ws_transfer(*action, ws_events@, settings.within_ms) == Some(
                (e.usdc, e.time_ms),
            ),
            None => spec_ws_transfer(*action, ws_events@, settings.within_ms) is None,
        },
{
    let mut i: usize = 0;
    proof {
        assert(ws_events@.skip(0) =~= ws_events@);
    }
    while i < ws_events.len()
        invariant
            i <= ws_events@.len(),
            spec_ws_transfer(*action, ws_events@, settings.within_ms) == spec_ws_transfer(
                *action,
                ws_events@.skip(i as int),
                settings.within_ms,
            ),
        decreases ws_events@.len() - i,
    {
        proof {
            assert(ws_events@.skip(i as int).drop_first() =~= ws_events@.skip(i + 1));
            assert(ws_events@.skip(i as int)[0] == ws_events@[i as int]);
        }
        let e = &ws_events[i];
        if chan_eq(&e.channel, "accountClassTransfer") {
            let tp: bool = match e.to_perp {
                Some(b) => b,
                None => {
                    return None;
                },
            };
            let in_time: bool = match e.time {
                Some(t) => {
                    let d: i128 = (t as i128) - (action.submit_ts_ms as i128);
                    let ad: i128 = if d < 0 {
                        -d
                    } else {
                        d
                    };
                    ad <= settings.within_ms as i128
                },
                None => true,
            };
            let expected: bool = match &action.request {
                RequestPayload::UsdClassTransfer { to_perp: Some(b), .. } => *b,
                _ => tp,
            };
            if in_time && tp == expected {
                return Some(TransferEvent { usdc: e.usdc, time_ms: e.time });
            }
        }
        i = i + 1;
    }
    None
}

/// Extracts the fill an acknowledgement entry itself reports.
pub fn extract_fill_from_status(status: &AckStatus) -> (r: Option<DetailedFill>)
    ensures
        match r {
            Some(f) => spec_status_fill(*status) == Some(fill_view(f)),
            None => spec_status_fill(*status) is None,
        },
{
    let kind: &str = match &status.kind {
        Some(k) => k.as_str(),
        None => "",
    };
    if !str_eq_ignore_case(kind, "filled") {
        return None;
    }
    let px = clone_opt_string(&status.avg_px);
    let sz = clone_opt_string(&status.total_sz);
    Some(DetailedFill { px, sz, time_ms: status.status_timestamp })
}

/// Copies an optional string.
fn clone_opt_string(o: &Option<String>) -> (r: Option<String>)
    ensures
        crate::record::opt_view(r) == crate::record::opt_view(*o),
{
    match o {
        Some(s) => Some(s.clone()),
        None => None,
    }
}

/// Resolves a fill from the record's own observed payloads.
pub fn find_fill_in_observed(action: &ActionLogRecord) -> (r: Option<DetailedFill>)
    ensures
        match r {
            Some(f) => spec_observed_fill(action.observed@) == Some(fill_view(f)),
            None => spec_observed_fill(action.observed@) is None,
        },
{
    let mut i: usize = 0;
    proof {
        assert(action.observed@.skip(0) =~= action.observed@);
    }
    while i < action.observed.len()
        invariant
            i <= action.observed@.len(),
            spec_observed_fill(action.observed@) == spec_observed_fill(
                action.observed@.skip(i as int),
            ),
        decreases action.observed@.len() - i,
    {
        proof {
            assert(action.observed@.skip(i as int).drop_first() =~= action.observed@.skip(i + 1));
            assert(action.observed@.skip(i as int)[0] == action.observed@[i as int]);
        }
        let o = &action.observed[i];
        if chan_eq(&o.channel, "userFills") {
            match &o.fills {
                Some(arr) => {
                    if arr.len() > 0 {
                        let px = clone_opt_string(&arr[0].px);
                        let sz = clone_opt_string(&arr[0].sz);
                        return Some(DetailedFill { px, sz, time_ms: arr[0].time });
                    }
                },
                None => {
                    if o.px.is_some() || o.sz.is_some() {
                        let px = clone_opt_string(&o.px);
                        let sz = clone_opt_string(&o.sz);
                        return Some(DetailedFill { px, sz, time_ms: o.time });
                    }
                },
            }
        }
        i = i + 1;
    }
    None
}

/// Resolves a fill from the event-stream log, keyed by the acknowledged
/// order id.
pub fn find_fill_in_ws(ws_events: &Vec<WsEvent>, oid: Option<u64>) -> (r: Option<DetailedFill>)
    ensures
        match r {
            Some(f) => spec_ws_fill(ws_events@, oid) == Some(fill_view(f)),
            None => spec_ws_fill(ws_events@, oid) is None,
        },
{
    let mut i: usize = 0;
    proof {
        assert(ws_events@.skip(0) =~= ws_events@);
    }
    while i < ws_events.len()
        invariant
            i <= ws_events@.len(),
            spec_ws_fill(ws_events@, oid) == spec_ws_fill(ws_events@.skip(i as int), oid),
        decreases ws_events@.len() - i,
    {
        proof {
            assert(ws_events@.skip(i as int).drop_first() =~= ws_events@.skip(i + 1));
            assert(ws_events@.skip(i as int)[0] == ws_events@[i as int]);
        }
        let e = &ws_events[i];
        if chan_eq(&e.channel, "userFills") {
            if let Some(arr) = &e.fills {
                let mut j: usize = 0;
                proof {
                    assert(arr@.skip(0) =~= arr@);
                }
                while j < arr.len()
                    invariant
                        j <= arr@.len(),
                        spec_fill_in_list(arr@, oid) == spec_fill_in_list(
                            arr@.skip(j as int),
                            oid,
                        ),
                    decreases arr@.len() - j,
                {
                    proof {
                        assert(arr@.skip(j as int).drop_first() =~= arr@.skip(j + 1));
                        assert(arr@.skip(j as int)[0] == arr@[j as int]);
                    }
                    let f = &arr[j];
                    let skip: bool = match f.oid {
                        Some(fo) => match oid {
                            Some(o) => fo != o,
                            None => true,
                        },
                        None => false,
                    };
                    if !skip {
                        let px = clone_opt_string(&f.px);
                        let sz = clone_opt_string(&f.sz);
                        return Some(DetailedFill { px, sz, time_ms: f.time });
                    }
                    j = j + 1;
                }
                proof {
                    assert(arr@.skip(arr@.len() as int) =~= Seq::<Fill>::empty());
                }
            }
        }
        i = i + 1;
    }
    None
}

/// The ghost outcome of matching one expected step against one candidate
/// action.
pub enum MatchOutcome {
    Matched {
        transfer: bool,
        oid: Option<u64>,
        fill: Option<(Option<Seq<char>>, Option<Seq<char>>)>,
        latency: Option<int>,
    },
    Failed(Seq<char>),
}

pub open spec fn outcome_latency(m: MatchOutcome) -> Option<int> {
    match m {
        MatchOutcome::Matched { latency, .. } => latency,
        MatchOutcome::Failed(_) => None,
    }
}

pub open spec fn toperp_mismatch_text(expected: bool, got: bool) -> Seq<char> {
    "toPerp mismatch (expected "@ + crate::sig::bool_text(expected) + ", got "@
        + crate::sig::bool_text(got) + ")"@
}

/// Matching one expected transfer against one candidate action: the action
/// kind and direction must agree, a realized transfer event must be found
/// in the record's own payloads or the event stream, and the amount
/// matcher, when given, must pass against the realized amount.
pub open spec fn spec_match_transfer(
    e: ExpectedTransfer,
    a: ActionLogRecord,
    ws: Seq<WsEvent>,
    st: SettingsUsed,
) -> MatchOutcome {
    if a.action@ != "usd_class_transfer"@ {
        MatchOutcome::Failed("action kind mismatch"@)
    } else {
        match a.request {
            RequestPayload::UsdClassTransfer { to_perp: Some(tp), .. } => {
                if tp != e.to_perp {
                    MatchOutcome::Failed(toperp_mismatch_text(e.to_perp, tp))
                } else {
                    let ev = match spec_observed_transfer(a.observed@) {
                        Some(x) => Some(x),
                        None => spec_ws_transfer(a, ws, st.within_ms),
                    };
                    match ev {
                        None => MatchOutcome::Failed("no observed transfer event"@),
                        Some((usdc, time)) => {
                            let amount_fail = match e.usdc {
                                Some(m) => match usdc {
                                    Some(amt) => num_amount_fail(m, amt as int, st),
                                    None => Some("transfer amount missing in observed event"@),
                                },
                                None => None,
                            };
                            match amount_fail {
                                Some(r) => MatchOutcome::Failed(r),
                                None => MatchOutcome::Matched {
                                    transfer: true,
                                    oid: None,
                                    fill: None,
                                    latency: match time {
                                        Some(t) => Some(
                                            lat_clamp(t as int - a.submit_ts_ms as int),
                                        ),
                                        None => None,
                                    },
                                },
                            }
                        },
                    }
                }
            },
            _ => MatchOutcome::Failed("missing toPerp in request"@),
        }
    }
}

/// The realized price used by a price matcher: the fill's price when it
/// parses, else the acknowledgement entry's average price.
pub open spec fn spec_price_of(fill: Option<FillView>, stt: AckStatus) -> Option<i64> {
    let first = match fill {
        Some(f) => match f.0 {
            Some(p) => parse_fixed_result(p),
            None => None,
        },
        None => None,
    };
    match first {
        Some(v) => Some(v),
        None => match stt.avg_px {
            Some(ap) => parse_fixed_result(ap@),
            None => None,
        },
    }
}

/// The final checks once an order position was accepted: the price
/// matcher, then the detail fields of the match.
pub open spec fn spec_order_finish(
    e: ExpectedPerpOrder,
    a: ActionLogRecord,
    stt: AckStatus,
    fill: Option<FillView>,
    st: SettingsUsed,
) -> MatchOutcome {
    let pxf = match e.px {
        Some(pm) => px_fail(
            pm,
            match spec_price_of(fill, stt) {
                Some(v) => Some(v as int),
                None => None,
            },
            st,
        ),
        None => None,
    };
    match pxf {
        Some(r) => MatchOutcome::Failed(r),
        None => MatchOutcome::Matched {
            transfer: false,
            oid: stt.oid,
            fill: match fill {
                Some(f) => Some((f.0, f.1)),
                None => None,
            },
            latency: match fill {
                Some(f) => match f.2 {
                    Some(t) => Some(lat_clamp(t as int - a.submit_ts_ms as int)),
                    None => None,
                },
                None => None,
            },
        },
    }
}

/// The candidate scan over order positions: a position failing an expected
/// filter — coin, side or time-in-force up to ASCII case, the reduce-only
/// flag, or the size matcher (a missing size fails it) — is skipped; the
/// first filter-passing position must carry a usable, non-error
/// acknowledgement entry and, when a fill is required, a realized fill in
/// the entry, the observed payloads, or the event stream.
pub open spec fn spec_scan_orders(
    e: ExpectedPerpOrder,
    a: ActionLogRecord,
    orders: Seq<OrderReq>,
    statuses: Seq<AckStatus>,
    ws: Seq<WsEvent>,
    st: SettingsUsed,
    idx: int,
) -> MatchOutcome
    decreases orders.len() - idx, 1int,
{
    if idx < 0 || idx >= orders.len() {
        MatchOutcome::Failed("no matching order in step"@)
    } else {
        let o = orders[idx];
        if e.coin is Some && !eq_ignore_case(opt_text(o.coin), e.coin->0@) {
            spec_scan_orders(e, a, orders, statuses, ws, st, idx + 1)
        } else if e.side is Some && !eq_ignore_case(opt_text(o.side), e.side->0@) {
            spec_scan_orders(e, a, orders, statuses, ws, st, idx + 1)
        } else if e.tif is Some && !eq_ignore_case(opt_text(o.tif), e.tif->0@) {
            spec_scan_orders(e, a, orders, statuses, ws, st, idx + 1)
        } else if e.reduce_only is Some && (match o.reduce_only {
            Some(b) => b,
            None => false,
        }) != e.reduce_only->0 {
            spec_scan_orders(e, a, orders, statuses, ws, st, idx + 1)
        } else if e.sz is Some && (o.sz is None || num_size_fail(e.sz->0, o.sz->0 as int, st)
            is Some) {
            spec_scan_orders(e, a, orders, statuses, ws, st, idx + 1)
        } else {
            spec_order_status(e, a, orders, statuses, ws, st, idx)
        }
    }
}

/// The acknowledgement and fill checks of one filter-passing position.
pub open spec fn spec_order_status(
    e: ExpectedPerpOrder,
    a: ActionLogRecord,
    orders: Seq<OrderReq>,
    statuses: Seq<AckStatus>,
    ws: Seq<WsEvent>,
    st: SettingsUsed,
    idx: int,
) -> MatchOutcome
    decreases orders.len() - idx, 0int,
{
    if idx < 0 || idx >= orders.len() {
        MatchOutcome::Failed("no matching order in step"@)
    } else if idx >= statuses.len() {
        spec_scan_orders(e, a, orders, statuses, ws, st, idx + 1)
    } else {
        let stt = statuses[idx];
        if eq_ignore_case(opt_text(stt.kind), "error"@) {
            spec_scan_orders(e, a, orders, statuses, ws, st, idx + 1)
        } else {
            let require_fill = match e.require_fill {
                Some(b) => b,
                None => false,
            };
            let fill0 = spec_status_fill(stt);
            if require_fill && fill0 is None {
                let alt = match spec_observed_fill(a.observed@) {
                    Some(x) => Some(x),
                    None => spec_ws_fill(ws, stt.oid),
                };
                match alt {
                    None => MatchOutcome::Failed("order required fill but none observed"@),
                    Some(f) => spec_order_finish(e, a, stt, Some(f), st),
                }
            } else {
                spec_order_finish(e, a, stt, fill0, st)
            }
        }
    }
}

/// A step that requires a fill resolves one in order: the acknowledgement
/// entry itself, then the record's own observed payloads, then the event
/// stream keyed by the acknowledged order id. When the filter-passing
/// position's entry is usable and none of the three sources yields a
/// fill, the whole candidate action fails with exactly the required-fill
/// reason; the scan does not retry other order positions of the same
/// action. When no other candidate qualifies, the alignment then reports
/// the step missing.
pub proof fn lemma_required_fill_rejects_candidate(
    e: ExpectedPerpOrder,
    a: ActionLogRecord,
    orders: Seq<OrderReq>,
    statuses: Seq<AckStatus>,
    ws: Seq<WsEvent>,
    st: SettingsUsed,
    idx: int,
)
    requires
        0 <= idx < orders.len(),
        idx < statuses.len(),
        !eq_ignore_case(opt_text(statuses[idx].kind), "error"@),
        e.require_fill == Some(true),
        spec_status_fill(statuses[idx]) is None,
        spec_observed_fill(a.observed@) is None,
        spec_ws_fill(ws, statuses[idx].oid) is None,
    ensures
        spec_order_status(e, a, orders, statuses, ws, st, idx) == MatchOutcome::Failed(
            "order required fill but none observed"@,
        ),
{
}

/// Matching one expected order step against one candidate action.
pub open spec fn spec_match_perp(
    e: ExpectedPerpOrder,
    a: ActionLogRecord,
    ws: Seq<WsEvent>,
    st: SettingsUsed,
) -> MatchOutcome {
    if a.action@ != "perp_orders"@ {
        MatchOutcome::Failed("action kind mismatch"@)
    } else {
        match a.request {
            RequestPayload::PerpOrders { orders } => if orders@.len() == 0 {
                MatchOutcome::Failed("perp_orders step missing orders"@)
            } else {
                spec_scan_orders(
                    e,
                    a,
                    orders@,
                    crate::normalize::record_statuses(a),
                    ws,
                    st,
                    0,
                )
            },
            _ => MatchOutcome::Failed("perp_orders step missing orders"@),
        }
    }
}

/// Matching one expected step of either kind.
pub open spec fn spec_match_step(
    step: ExpectedStep,
    a: ActionLogRecord,
    ws: Seq<WsEvent>,
    st: SettingsUsed,
) -> MatchOutcome {
    match step.usd_class_transfer {
        Some(t) => spec_match_transfer(t, a, ws, st),
        None => match step.perp_order {
            Some(p) => spec_match_perp(p, a, ws, st),
            None => MatchOutcome::Failed("unsupported step kind"@),
        },
    }
}

/// The kind of a matched step.
#[derive(Debug, Clone)]
pub enum MatchKind {
    UsdClassTransfer,
    PerpOrder,
}

impl MatchKind {
    pub open spec fn label_text(&self) -> Seq<char> {
        match self {
            MatchKind::UsdClassTransfer => "usd_class_transfer"@,
            MatchKind::PerpOrder => "perp_order"@,
        }
    }

    pub fn label(&self) -> (r: &'static str)
        ensures
            r@ == self.label_text(),
    {
        match self {
            MatchKind::UsdClassTransfer => "usd_class_transfer",
            MatchKind::PerpOrder => "perp_order",
        }
    }
}

/// The realized fill carried in a report entry.
#[derive(Debug)]
pub struct FillInfo {
    pub px: Option<String>,
    pub sz: Option<String>,
}

/// The outcome of aligning one expected step with one log entry.
#[derive(Debug)]
pub struct MatchDetail {
    pub kind: MatchKind,
    pub ts_ms: i64,
    pub oid: Option<u64>,
    pub fill: Option<FillInfo>,
    pub latency_ms: Option<i64>,
}

/// One matched step of the report.
#[derive(Debug)]
pub struct MatchedStepSerial {
    pub expect_idx: usize,
    pub matched_at: usize,
    pub kind: String,
    pub ts_ms: i64,
    pub oid: Option<u64>,
    pub fill: Option<FillInfo>,
}

/// One missing step of the report.
#[derive(Debug)]
pub struct MissingStepSerial {
    pub expect_idx: usize,
    pub description: String,
    pub reason: String,
}

/// One missing step, before serialization.
#[derive(Debug)]
pub struct MissingStepRecord {
    pub expect_idx: usize,
    pub description: String,
    pub reason: String,
}

impl MatchDetail {
    pub fn to_serializable(&self, expect_idx: usize, matched_at: usize) -> (r: MatchedStepSerial)
        ensures
            r.expect_idx == expect_idx,
            r.matched_at == matched_at,
            r.kind@ == self.kind.label_text(),
            r.ts_ms == self.ts_ms,
            r.oid == self.oid,
            fill_info_view(r.fill) == fill_info_view(self.fill),
    {
        let mut kind = String::new();
        kind.append(self.label_str());
        MatchedStepSerial {
            expect_idx,
            matched_at,
            kind,
            ts_ms: self.ts_ms,
            oid: self.oid,
            fill: clone_opt_fill(&self.fill),
        }
    }

    fn label_str(&self) -> (r: &'static str)
        ensures
            r@ == self.kind.label_text(),
    {
        self.kind.label()
    }
}

impl MissingStepRecord {
    pub fn to_serializable(&self) -> (r: MissingStepSerial)
        ensures
            r.expect_idx == self.expect_idx,
            r.description@ == self.description@,
            r.reason@ == self.reason@,
    {
        MissingStepSerial {
            expect_idx: self.expect_idx,
            description: self.description.clone(),
            reason: self.reason.clone(),
        }
    }
}

/// The ghost shape of a report fill.
pub open spec fn fill_info_view(f: Option<FillInfo>) -> Option<(Option<Seq<char>>, Option<
    Seq<char>,
>)> {
    match f {
        Some(x) => Some((crate::record::opt_view(x.px), crate::record::opt_view(x.sz))),
        None => None,
    }
}

fn clone_opt_fill(f: &Option<FillInfo>) -> (r: Option<FillInfo>)
    ensures
        fill_info_view(r) == fill_info_view(*f),
{
    match f {
        Some(x) => {
            let px = clone_opt_string(&x.px);
            let sz = clone_opt_string(&x.sz);
            Some(FillInfo { px, sz })
        },
        None => None,
    }
}

/// What an executable match result must be, given the ghost outcome.
pub open spec fn outcome_ok(r: Result<MatchDetail, String>, o: MatchOutcome, submit: i64) -> bool {
    match r {
        Ok(d) => {
            &&& o matches MatchOutcome::Matched { transfer, oid, fill, latency } ==> {
                &&& (d.kind is UsdClassTransfer) == transfer
                &&& d.oid == oid
                &&& fill_info_view(d.fill) == fill
                &&& (match (d.latency_ms, latency) {
                    (Some(v), Some(g)) => v as int == g,
                    (None, None) => true,
                    _ => false,
                })
            }
            &&& o is Matched
            &&& d.ts_ms == submit
        },
        Err(e) => o matches MatchOutcome::Failed(t) && e@ == t,
    }
}

/// Clamps a time difference to a non-negative representable latency.
fn lat_of(t: i64, submit: i64) -> (r: i64)
    ensures
        r as int == lat_clamp(t as int - submit as int),
{
    let d: i128 = (t as i128) - (submit as i128);
    if d < 0 {
        0
    } else if d > 0x7FFF_FFFF_FFFF_FFFFi128 {
        0x7FFF_FFFF_FFFF_FFFF
    } else {
        d as i64
    }
}

/// Matches one expected transfer against one candidate action.
pub fn match_transfer(
    expected: &ExpectedTransfer,
    action: &ActionLogRecord,
    ws_events: &Vec<WsEvent>,
    settings: &SettingsUsed,
) -> (r: Result<MatchDetail, String>)
    requires
        settings.wf(),
    ensures
        outcome_ok(
            r,
            spec_match_transfer(*expected, *action, ws_events@, *settings),
            action.submit_ts_ms,
        ),
{
    if !str_eq(action.action.as_str(), "usd_class_transfer") {
        return Err(lit_string("action kind mismatch"));
    }
    let tp: bool = match &action.request {
        RequestPayload::UsdClassTransfer { to_perp: Some(b), .. } => *b,
        _ => {
            return Err(lit_string("missing toPerp in request"));
        },
    };
    if tp != expected.to_perp {
        let mut s = String::new();
        s.append("toPerp mismatch (expected ");
        s.append(bool_str(expected.to_perp));
        s.append(", got ");
        s.append(bool_str(tp));
        s.append(")");
        proof {
            assert(s@ =~= toperp_mismatch_text(expected.to_perp, tp));
        }
        return Err(s);
    }
    let event: TransferEvent = match extract_transfer_event(action) {
        Some(e) => e,
        None => match find_transfer_in_ws(action, ws_events, settings) {
            Some(e) => e,
            None => {
                return Err(lit_string("no observed transfer event"));
            },
        },
    };
    if let Some(m) = &expected.usdc {
        let amount: i64 = match event.usdc {
            Some(a) => a,
            None => {
                return Err(lit_string("transfer amount missing in observed event"));
            },
        };
        if let Err(e) = m.matches_amount(amount, settings) {
            return Err(e);
        }
    }
    let latency_ms: Option<i64> = match event.time_ms {
        Some(t) => Some(lat_of(t, action.submit_ts_ms)),
        None => None,
    };
    Ok(
        MatchDetail {
            kind: MatchKind::UsdClassTransfer,
            ts_ms: action.submit_ts_ms,
            oid: None,
            fill: None,
            latency_ms,
        },
    )
}

/// Matches one expected order step against one candidate action, scanning
/// the request's order list by position.
pub fn match_perp_order(
    expected: &ExpectedPerpOrder,
    action: &ActionLogRecord,
    ws_events: &Vec<WsEvent>,
    settings: &SettingsUsed,
) -> (r: Result<MatchDetail, String>)
    requires
        settings.wf(),
    ensures
        outcome_ok(
            r,
            spec_match_perp(*expected, *action, ws_events@, *settings),
            action.submit_ts_ms,
        ),
{
    if !str_eq(action.action.as_str(), "perp_orders") {
        return Err(lit_string("action kind mismatch"));
    }
    let orders: &Vec<OrderReq> = match &action.request {
        RequestPayload::PerpOrders { orders } => orders,
        _ => {
            return Err(lit_string("perp_orders step missing orders"));
        },
    };
    if orders.len() == 0 {
        return Err(lit_string("perp_orders step missing orders"));
    }
    let empty_statuses: Vec<AckStatus> = Vec::new();
    let statuses: &Vec<AckStatus> = match &action.ack {
        Some(a) => &a.statuses,
        None => &empty_statuses,
    };
    proof {
        assert(statuses@ =~= crate::normalize::record_statuses(*action));
    }
    let mut idx: usize = 0;
    while idx < orders.len()
        invariant
            idx <= orders@.len(),
            settings.wf(),
            statuses@ == crate::normalize::record_statuses(*action),
            spec_scan_orders(
                *expected,
                *action,
                orders@,
                statuses@,
                ws_events@,
                *settings,
                0,
            ) == spec_scan_orders(
                *expected,
                *action,
                orders@,
                statuses@,
                ws_events@,
                *settings,
                idx as int,
            ),
        decreases orders@.len() - idx,
    {
        let o = &orders[idx];
        if let Some(c) = &expected.coin {
            let actual: &str = match &o.coin {
                Some(x) => x.as_str(),
                None => "",
            };
            if !str_eq_ignore_case(actual, c.as_str()) {
                idx = idx + 1;
                continue ;
            }
        }
        if let Some(sd) = &expected.side {
            let actual: &str = match &o.side {
                Some(x) => x.as_str(),
                None => "",
            };
            if !str_eq_ignore_case(actual, sd.as_str()) {
                idx = idx + 1;
                continue ;
            }
        }
        if let Some(t) = &expected.tif {
            let actual: &str = match &o.tif {
                Some(x) => x.as_str(),
                None => "",
            };
            if !str_eq_ignore_case(actual, t.as_str()) {
                idx = idx + 1;
                continue ;
            }
        }
        if let Some(ro) = expected.reduce_only {
            let actual: bool = match o.reduce_only {
                Some(b) => b,
                None => false,
            };
            if actual != ro {
                idx = idx + 1;
                continue ;
            }
        }
        if let Some(m) = &expected.sz {
            let szv: i64 = match o.sz {
                Some(v) => v,
                None => {
                    idx = idx + 1;
                    continue ;
                },
            };
            if m.matches_size(szv, settings).is_err() {
                idx = idx + 1;
                continue ;
            }
        }
        proof {
            assert(spec_scan_orders(
                *expected,
                *action,
                orders@,
                statuses@,
                ws_events@,
                *settings,
                idx as int,
            ) == spec_order_status(
                *expected,
                *action,
                orders@,
                statuses@,
                ws_events@,
                *settings,
                idx as int,
            ));
        }
        if idx >= statuses.len() {
            idx = idx + 1;
            continue ;
        }
        let stt = &statuses[idx];
        let kindstr: &str = match &stt.kind {
            Some(k) => k.as_str(),
            None => "",
        };
        if str_eq_ignore_case(kindstr, "error") {
            idx = idx + 1;
            continue ;
        }
        let require_fill: bool = match expected.require_fill {
            Some(b) => b,
            None => false,
        };
        let mut fill: Option<DetailedFill> = extract_fill_from_status(stt);
        if require_fill && fill.is_none() {
            fill = find_fill_in_observed(action);
            if fill.is_none() {
                fill = find_fill_in_ws(ws_events, stt.oid);
            }
            if fill.is_none() {
                return Err(lit_string("order required fill but none observed"));
            }
        }
        let ghost gfill: Option<FillView> = match &fill {
            Some(f) => Some(fill_view(*f)),
            None => None,
        };
        if let Some(pm) = &expected.px {
            let first: Option<i64> = match &fill {
                Some(f) => match &f.px {
                    Some(p) => parse_fixed(p.as_str()),
                    None => None,
                },
                None => None,
            };
            let price: Option<i64> = match first {
                Some(v) => Some(v),
                None => match &stt.avg_px {
                    Some(ap) => parse_fixed(ap.as_str()),
                    None => None,
                },
            };
            proof {
                assert(price == spec_price_of(gfill, statuses@[idx as int]));
            }
            if let Err(e) = pm.matches(price, settings) {
                return Err(e);
            }
        }
        let latency_ms: Option<i64> = match &fill {
            Some(f) => match f.time_ms {
                Some(t) => Some(lat_of(t, action.submit_ts_ms)),
                None => None,
            },
            None => None,
        };
        let fi: Option<FillInfo> = match fill {
            Some(f) => Some(FillInfo { px: f.px, sz: f.sz }),
            None => None,
        };
        return Ok(
            MatchDetail {
                kind: MatchKind::PerpOrder,
                ts_ms: action.submit_ts_ms,
                oid: stt.oid,
                fill: fi,
                latency_ms,
            },
        );
    }
    Err(lit_string("no matching order in step"))
}

/// Matches one expected step of either kind against one candidate action.
pub fn match_step(
    step: &ExpectedStep,
    action: &ActionLogRecord,
    ws_events: &Vec<WsEvent>,
    settings: &SettingsUsed,
) -> (r: Result<MatchDetail, String>)
    requires
        settings.wf(),
    ensures
        outcome_ok(
            r,
            spec_match_step(*step, *action, ws_events@, *settings),
            action.submit_ts_ms,
        ),
{
    match &step.usd_class_transfer {
        Some(t) => match_transfer(t, action, ws_events, settings),
        None => match &step.perp_order {
            Some(p) => match_perp_order(p, action, ws_events, settings),
            None => Err(lit_string("unsupported step kind")),
        },
    }
}

/// The text "true" or "false" as a borrowed literal.
fn bool_str(b: bool) -> (r: &'static str)
    ensures
        r@ == crate::sig::bool_text(b),
{
    if b {
        "true"
    } else {
        "false"
    }
}

/// A literal message as an owned string.
fn lit_string(text: &str) -> (r: String)
    ensures
        r@ == text@,
{
    let mut s = String::new();
    s.append(text);
    proof {
        assert(s@ =~= text@);
    }
    s
}

pub open spec fn opt_fixed_text(o: Option<i64>) -> Seq<char> {
    match o {
        Some(v) => fixed_text(v as int),
        None => "none"@,
    }
}

pub open spec fn num_matcher_text(m: NumMatcher) -> Seq<char> {
    "{eq: "@ + opt_fixed_text(m.eq) + ", tol: "@ + opt_fixed_text(m.tol) + ", ge: "@
        + opt_fixed_text(m.ge) + ", le: "@ + opt_fixed_text(m.le) + "}"@
}

pub open spec fn opt_num_matcher_text(o: Option<NumMatcher>) -> Seq<char> {
    match o {
        Some(m) => num_matcher_text(m),
        None => "none"@,
    }
}

pub open spec fn opt_str_text(o: Option<String>) -> Seq<char> {
    match o {
        Some(s) => s@,
        None => "none"@,
    }
}

pub open spec fn opt_bool_text(o: Option<bool>) -> Seq<char> {
    match o {
        Some(b) => crate::sig::bool_text(b),
        None => "none"@,
    }
}

/// The human-readable description of one expected step.
pub open spec fn describe_text(step: ExpectedStep) -> Seq<char> {
    match step.usd_class_transfer {
        Some(t) => "usd_class_transfer { toPerp: "@ + crate::sig::bool_text(t.to_perp)
            + ", usdc: "@ + opt_num_matcher_text(t.usdc) + " }"@,
        None => match step.perp_order {
            Some(p) => "perp_order { coin: "@ + opt_str_text(p.coin) + ", side: "@ + opt_str_text(
                p.side,
            ) + ", tif: "@ + opt_str_text(p.tif) + ", reduceOnly: "@ + opt_bool_text(
                p.reduce_only,
            ) + " }"@,
            None => "unsupported step"@,
        },
    }
}

fn append_opt_fixed(s: &mut String, o: &Option<i64>)
    ensures
        final(s)@ == old(s)@ + opt_fixed_text(*o),
{
    match o {
        Some(v) => {
            let t = fixed_to_text(*v);
            s.append(t.as_str());
        },
        None => {
            s.append("none");
        },
    }
}

fn append_opt_str(s: &mut String, o: &Option<String>)
    ensures
        final(s)@ == old(s)@ + opt_str_text(*o),
{
    match o {
        Some(v) => {
            s.append(v.as_str());
        },
        None => {
            s.append("none");
        },
    }
}

fn append_num_matcher(s: &mut String, o: &Option<NumMatcher>)
    ensures
        final(s)@ == old(s)@ + opt_num_matcher_text(*o),
{
    match o {
        Some(m) => {
            s.append("{eq: ");
            append_opt_fixed(s, &m.eq);
            s.append(", tol: ");
            append_opt_fixed(s, &m.tol);
            s.append(", ge: ");
            append_opt_fixed(s, &m.ge);
            s.append(", le: ");
            append_opt_fixed(s, &m.le);
            s.append("}");
            proof {
                assert(s@ =~= old(s)@ + num_matcher_text(*m));
            }
        },
        None => {
            s.append("none");
        },
    }
}

/// A borrowed view of the step kinds a ground truth may expect.
#[derive(Debug)]
pub enum StepKind<'a> {
    UsdClassTransfer(&'a ExpectedTransfer),
    PerpOrder(&'a ExpectedPerpOrder),
    Unsupported,
}

impl ExpectedStep {
    /// The kind of the step: a transfer expectation wins over an order
    /// expectation when both are present.
    pub fn kind(&self) -> (r: StepKind)
        ensures
            match r {
                StepKind::UsdClassTransfer(t) => self.usd_class_transfer == Some(*t),
                StepKind::PerpOrder(p) => self.usd_class_transfer is None && self.perp_order
                    == Some(*p),
                StepKind::Unsupported => self.usd_class_transfer is None && self.perp_order
                    is None,
            },
    {
        match &self.usd_class_transfer {
            Some(t) => StepKind::UsdClassTransfer(t),
            None => match &self.perp_order {
                Some(p) => StepKind::PerpOrder(p),
                None => StepKind::Unsupported,
            },
        }
    }

    /// Renders the step for a report or a diff.
    pub fn describe(&self) -> (r: String)
        ensures
            r@ == describe_text(*self),
    {
        match &self.usd_class_transfer {
            Some(t) => {
                let mut s = String::new();
                s.append("usd_class_transfer { toPerp: ");
                s.append(bool_str(t.to_perp));
                s.append(", usdc: ");
                append_num_matcher(&mut s, &t.usdc);
                s.append(" }");
                proof {
                    assert(s@ =~= describe_text(*self));
                }
                s
            },
            None => match &self.perp_order {
                Some(p) => {
                    let mut s = String::new();
                    s.append("perp_order { coin: ");
                    append_opt_str(&mut s, &p.coin);
                    s.append(", side: ");
                    append_opt_str(&mut s, &p.side);
                    s.append(", tif: ");
                    append_opt_str(&mut s, &p.tif);
                    s.append(", reduceOnly: ");
                    match p.reduce_only {
                        Some(b) => {
                            s.append(bool_str(b));
                        },
                        None => {
                            s.append("none");
                        },
                    }
                    s.append(" }");
                    proof {
                        assert(s@ =~= describe_text(*self));
                    }
                    s
                },
                None => lit_string("unsupported step"),
            },
        }
    }
}

/// The outcome of scanning candidates for one expected step.
pub enum ScanResult {
    Found(int, MatchOutcome),
    NotFound(Seq<char>),
}

pub open spec fn timeout_text(within: int) -> Seq<char> {
    "no matching action within "@ + int_text(within) + " ms after previous step"@
}

/// The candidate scan for one step: candidates are tried in order from
/// `idx`; the scan ends empty the moment a candidate's submit timestamp
/// exceeds the previous match's timestamp by more than the window, and
/// otherwise remembers the last failure reason observed.
pub open spec fn spec_scan(
    step: ExpectedStep,
    actions: Seq<ActionLogRecord>,
    ws: Seq<WsEvent>,
    st: SettingsUsed,
    idx: int,
    last_ts: Option<i64>,
    last_reason: Seq<char>,
) -> ScanResult
    decreases actions.len() - idx,
{
    if idx < 0 || idx >= actions.len() {
        ScanResult::NotFound(last_reason)
    } else if last_ts is Some && actions[idx].submit_ts_ms as int - last_ts->0 as int
        > st.within_ms as int {
        ScanResult::NotFound(timeout_text(st.within_ms as int))
    } else {
        match spec_match_step(step, actions[idx], ws, st) {
            MatchOutcome::Failed(r) => spec_scan(step, actions, ws, st, idx + 1, last_ts, r),
            m => ScanResult::Found(idx, m),
        }
    }
}

/// The ghost outcome of a whole alignment: matched steps with their log
/// positions, missing steps with their reasons, and one latency slot per
/// step.
pub struct AlignOut {
    pub matched: Seq<(int, int, MatchOutcome)>,
    pub missing: Seq<(int, Seq<char>)>,
    pub lat: Seq<Option<int>>,
}

/// The forward-only alignment: step `i` scans candidates after the cursor;
/// a match advances the cursor and the previous-match timestamp; a missing
/// step advances neither.
pub open spec fn spec_align(
    steps: Seq<ExpectedStep>,
    actions: Seq<ActionLogRecord>,
    ws: Seq<WsEvent>,
    st: SettingsUsed,
    i: int,
    from: int,
    last_ts: Option<i64>,
) -> AlignOut
    decreases steps.len() - i,
{
    if i < 0 || i >= steps.len() {
        AlignOut { matched: Seq::empty(), missing: Seq::empty(), lat: Seq::empty() }
    } else {
        match spec_scan(steps[i], actions, ws, st, from, last_ts, "not found"@) {
            ScanResult::Found(k, m) => {
                let rest = spec_align(
                    steps,
                    actions,
                    ws,
                    st,
                    i + 1,
                    k + 1,
                    Some(actions[k].submit_ts_ms),
                );
                AlignOut {
                    matched: seq![(i, k, m)] + rest.matched,
                    missing: rest.missing,
                    lat: seq![outcome_latency(m)] + rest.lat,
                }
            },
            ScanResult::NotFound(r) => {
                let rest = spec_align(steps, actions, ws, st, i + 1, from, last_ts);
                AlignOut {
                    matched: rest.matched,
                    missing: seq![(i, r)] + rest.missing,
                    lat: seq![Option::None] + rest.lat,
                }
            },
        }
    }
}

/// A found candidate lies at or after the scan start, inside the log.
pub proof fn lemma_scan_range(
    step: ExpectedStep,
    actions: Seq<ActionLogRecord>,
    ws: Seq<WsEvent>,
    st: SettingsUsed,
    idx: int,
    last_ts: Option<i64>,
    last_reason: Seq<char>,
)
    ensures
        spec_scan(step, actions, ws, st, idx, last_ts, last_reason) matches ScanResult::Found(
            k,
            _,
        ) ==> idx <= k < actions.len(),
    decreases actions.len() - idx,
{
    if 0 <= idx < actions.len() {
        match spec_match_step(step, actions[idx], ws, st) {
            MatchOutcome::Failed(r2) => {
                lemma_scan_range(step, actions, ws, st, idx + 1, last_ts, r2);
            },
            _ => {},
        }
    }
}

/// The forward-only invariant: a later matched step stands at a strictly
/// later log position than every earlier one, and every matched position
/// lies at or after the scan start.
pub proof fn lemma_align_monotone(
    steps: Seq<ExpectedStep>,
    actions: Seq<ActionLogRecord>,
    ws: Seq<WsEvent>,
    st: SettingsUsed,
    i: int,
    from: int,
    last_ts: Option<i64>,
)
    ensures
        forall|j: int|
            0 <= j < spec_align(steps, actions, ws, st, i, from, last_ts).matched.len() ==> from
                <= (#[trigger] spec_align(steps, actions, ws, st, i, from, last_ts).matched[j]).1
                < actions.len(),
        forall|j1: int, j2: int|
            0 <= j1 < j2 < spec_align(steps, actions, ws, st, i, from, last_ts).matched.len()
                ==> (#[trigger] spec_align(steps, actions, ws, st, i, from, last_ts).matched[j1]).1
                < (#[trigger] spec_align(steps, actions, ws, st, i, from, last_ts).matched[j2]).1,
    decreases steps.len() - i,
{
    if 0 <= i < steps.len() {
        let scan = spec_scan(steps[i], actions, ws, st, from, last_ts, "not found"@);
        lemma_scan_range(steps[i], actions, ws, st, from, last_ts, "not found"@);
        match scan {
            ScanResult::Found(k, m) => {
                lemma_align_monotone(
                    steps,
                    actions,
                    ws,
                    st,
                    i + 1,
                    k + 1,
                    Some(actions[k].submit_ts_ms),
                );
                let cur = spec_align(steps, actions, ws, st, i, from, last_ts);
                let rest = spec_align(
                    steps,
                    actions,
                    ws,
                    st,
                    i + 1,
                    k + 1,
                    Some(actions[k].submit_ts_ms),
                );
                assert forall|j: int|
                    0 <= j < cur.matched.len() implies from <= (#[trigger] cur.matched[j]).1
                    < actions.len() by {
                    if j > 0 {
                        assert(cur.matched[j] == rest.matched[j - 1]);
                    }
                }
                assert forall|j1: int, j2: int|
                    0 <= j1 < j2 < cur.matched.len() implies (#[trigger] cur.matched[j1]).1 < (
                #[trigger] cur.matched[j2]).1 by {
                    if j1 > 0 {
                        assert(cur.matched[j1] == rest.matched[j1 - 1]);
                        assert(cur.matched[j2] == rest.matched[j2 - 1]);
                    } else {
                        assert(cur.matched[j2] == rest.matched[j2 - 1]);
                    }
                }
            },
            ScanResult::NotFound(_) => {
                lemma_align_monotone(steps, actions, ws, st, i + 1, from, last_ts);
                let cur = spec_align(steps, actions, ws, st, i, from, last_ts);
                let rest = spec_align(steps, actions, ws, st, i + 1, from, last_ts);
                assert(cur.matched =~= rest.matched);
            },
        }
    }
}

/// Latency per expected step, and the window size used.
#[derive(Debug)]
pub struct Metrics {
    pub latency_ms: Vec<(usize, Option<i64>)>,
    pub window_ms: i64,
}

/// The ground-truth verdict report.
#[derive(Debug)]
pub struct EvalHian {
    pub pass: bool,
    pub case_id: Option<String>,
    pub matched: Vec<MatchedStepSerial>,
    pub missing: Vec<MissingStepSerial>,
    pub metrics: Metrics,
    pub settings: SettingsUsed,
}

/// What one matched report entry must hold, given its ghost counterpart.
pub open spec fn matched_entry_ok(
    e: MatchedStepSerial,
    t: (int, int, MatchOutcome),
    actions: Seq<ActionLogRecord>,
) -> bool {
    &&& e.expect_idx == t.0
    &&& e.matched_at == t.1
    &&& t.2 is Matched
    &&& (t.2 matches MatchOutcome::Matched { transfer, oid, fill, .. } ==> {
        &&& e.kind@ == (if transfer {
            "usd_class_transfer"@
        } else {
            "perp_order"@
        })
        &&& e.oid == oid
        &&& fill_info_view(e.fill) == fill
    })
    &&& 0 <= t.1 < actions.len()
    &&& e.ts_ms == actions[t.1].submit_ts_ms
}

/// What one missing report entry must hold, given its ghost counterpart.
pub open spec fn missing_entry_ok(
    e: MissingStepSerial,
    t: (int, Seq<char>),
    steps: Seq<ExpectedStep>,
) -> bool {
    &&& e.expect_idx == t.0
    &&& e.reason@ == t.1
    &&& 0 <= t.0 < steps.len()
    &&& e.description@ == describe_text(steps[t.0])
}

/// The relation between an executable latency slot and its ghost value.
pub open spec fn latency_slot_ok(v: Option<i64>, g: Option<int>) -> bool {
    match (v, g) {
        (Some(a), Some(b)) => a as int == b,
        (None, None) => true,
        _ => false,
    }
}

/// Aligns the expected steps against the action log. The report holds one
/// matched or missing entry per step, a latency slot per step, and passes
/// exactly when nothing is missing. Matched log positions strictly
/// increase: a later step never matches at or before an earlier match.
pub fn align(
    ground: &GroundTruth,
    actions: &Vec<ActionLogRecord>,
    ws_events: &Vec<WsEvent>,
    settings: &SettingsUsed,
) -> (r: EvalHian)
    requires
        settings.wf(),
    ensures
        ({
            let full = spec_align(
                ground.steps@,
                actions@,
                ws_events@,
                *settings,
                0,
                0,
                Option::None,
            );
            &&& r.pass == (full.missing.len() == 0)
            &&& r.matched@.len() == full.matched.len()
            &&& forall|j: int|
                0 <= j < full.matched.len() ==> matched_entry_ok(
                    #[trigger] r.matched@[j],
                    full.matched[j],
                    actions@,
                )
            &&& r.missing@.len() == full.missing.len()
            &&& forall|j: int|
                0 <= j < full.missing.len() ==> missing_entry_ok(
                    #[trigger] r.missing@[j],
                    full.missing[j],
                    ground.steps@,
                )
            &&& r.metrics.latency_ms@.len() == ground.steps@.len()
            &&& forall|j: int|
                0 <= j < ground.steps@.len() ==> (#[trigger] r.metrics.latency_ms@[j]).0 == j
                    && latency_slot_ok(r.metrics.latency_ms@[j].1, full.lat[j])
            &&& r.metrics.window_ms == settings.window_ms
            &&& r.settings.within_ms == settings.within_ms
            &&& r.settings.window_ms == settings.window_ms
            &&& r.settings.amount_tolerance == settings.amount_tolerance
            &&& r.settings.px_tolerance_pct == settings.px_tolerance_pct
            &&& r.settings.sz_tolerance_pct == settings.sz_tolerance_pct
            &&& crate::record::opt_view(r.case_id) == crate::record::opt_view(ground.case_id)
            &&& forall|j1: int, j2: int|
                0 <= j1 < j2 < r.matched@.len() ==> (#[trigger] r.matched@[j1]).matched_at < (
                #[trigger] r.matched@[j2]).matched_at
        }),
{
    let ghost full = spec_align(
        ground.steps@,
        actions@,
        ws_events@,
        *settings,
        0,
        0,
        Option::None,
    );
    let mut matched: Vec<MatchedStepSerial> = Vec::new();
    let mut missing: Vec<MissingStepSerial> = Vec::new();
    let mut latency: Vec<(usize, Option<i64>)> = Vec::new();
    let ghost mut gm: Seq<(int, int, MatchOutcome)> = Seq::empty();
    let ghost mut gs: Seq<(int, Seq<char>)> = Seq::empty();
    let ghost mut gl: Seq<Option<int>> = Seq::empty();
    let mut start: usize = 0;
    let mut last_ts: Option<i64> = None;
    let mut i: usize = 0;
    proof {
        assert(full.matched =~= gm + full.matched);
        assert(full.missing =~= gs + full.missing);
        assert(full.lat =~= gl + full.lat);
    }
    while i < ground.steps.len()
        invariant
            i <= ground.steps@.len(),
            settings.wf(),
            start <= actions@.len(),
            matched@.len() == gm.len(),
            missing@.len() == gs.len(),
            latency@.len() == gl.len(),
            gl.len() == i,
            forall|j: int|
                0 <= j < gm.len() ==> matched_entry_ok(#[trigger] matched@[j], gm[j], actions@),
            forall|j: int|
                0 <= j < gs.len() ==> missing_entry_ok(#[trigger] missing@[j], gs[j], ground.steps@),
            forall|j: int|
                0 <= j < gl.len() ==> (#[trigger] latency@[j]).0 == j && latency_slot_ok(
                    latency@[j].1,
                    gl[j],
                ),
            full.matched == gm + spec_align(
                ground.steps@,
                actions@,
                ws_events@,
                *settings,
                i as int,
                start as int,
                last_ts,
            ).matched,
            full.missing == gs + spec_align(
                ground.steps@,
                actions@,
                ws_events@,
                *settings,
                i as int,
                start as int,
                last_ts,
            ).missing,
            full.lat == gl + spec_align(
                ground.steps@,
                actions@,
                ws_events@,
                *settings,
                i as int,
                start as int,
                last_ts,
            ).lat,
        decreases ground.steps@.len() - i,
    {
        let step = &ground.steps[i];
        let ghost scan_spec = spec_scan(
            ground.steps@[i as int],
            actions@,
            ws_events@,
            *settings,
            start as int,
            last_ts,
            "not found"@,
        );
        let mut reason: String = lit_string("not found");
        let mut k: usize = start;
        let mut done: bool = false;
        let mut fdetail: Option<MatchDetail> = None;
        let mut fidx: usize = 0;
        while k < actions.len() && !done
            invariant
                settings.wf(),
                start <= k <= actions@.len(),
                !done ==> fdetail is None && scan_spec == spec_scan(
                    ground.steps@[i as int],
                    actions@,
                    ws_events@,
                    *settings,
                    k as int,
                    last_ts,
                    reason@,
                ),
                done ==> match fdetail {
                    Some(d) => scan_spec matches ScanResult::Found(kk, m) && kk == fidx as int
                        && outcome_ok(Result::Ok(d), m, actions@[fidx as int].submit_ts_ms)
                        && fidx < actions@.len(),
                    None => scan_spec matches ScanResult::NotFound(t) && t == reason@,
                },
            decreases actions@.len() - k, (if done {
                0int
            } else {
                1int
            }),
        {
            if let Some(p) = last_ts {
                let d: i128 = (actions[k].submit_ts_ms as i128) - (p as i128);
                if d > settings.within_ms as i128 {
                    let mut t = String::new();
                    t.append("no matching action within ");
                    let w = int_to_text(settings.within_ms);
                    t.append(w.as_str());
                    t.append(" ms after previous step");
                    proof {
                        assert(t@ =~= timeout_text(settings.within_ms as int));
                    }
                    reason = t;
                    done = true;
                    continue ;
                }
            }
            match match_step(step, &actions[k], ws_events, settings) {
                Ok(detail) => {
                    fdetail = Some(detail);
                    fidx = k;
                    done = true;
                },
                Err(e) => {
                    reason = e;
                    k = k + 1;
                },
            }
        }
        let ghost before = spec_align(
            ground.steps@,
            actions@,
            ws_events@,
            *settings,
            i as int,
            start as int,
            last_ts,
        );
        match fdetail {
            Some(d) => {
                let ghost m = scan_spec->Found_1;
                proof {
                    let rest = spec_align(
                        ground.steps@,
                        actions@,
                        ws_events@,
                        *settings,
                        i + 1,
                        fidx + 1,
                        Some(actions@[fidx as int].submit_ts_ms),
                    );
                    assert(before.matched =~= seq![(i as int, fidx as int, m)] + rest.matched);
                    assert(gm + before.matched =~= gm.push((i as int, fidx as int, m))
                        + rest.matched);
                    assert(before.lat =~= seq![outcome_latency(m)] + rest.lat);
                    assert(gl + before.lat =~= gl.push(outcome_latency(m)) + rest.lat);
                    assert(gs + before.missing =~= gs + rest.missing);
                }
                latency.push((i, d.latency_ms));
                let serial = d.to_serializable(i, fidx);
                matched.push(serial);
                proof {
                    gm = gm.push((i as int, fidx as int, m));
                    gl = gl.push(outcome_latency(m));
                }
                last_ts = Some(actions[fidx].submit_ts_ms);
                start = fidx + 1;
            },
            None => {
                let ghost rtext = reason@;
                proof {
                    let rest = spec_align(
                        ground.steps@,
                        actions@,
                        ws_events@,
                        *settings,
                        i + 1,
                        start as int,
                        last_ts,
                    );
                    assert(before.missing =~= seq![(i as int, rtext)] + rest.missing);
                    assert(gs + before.missing =~= gs.push((i as int, rtext)) + rest.missing);
                    assert(before.lat =~= seq![Option::<int>::None] + rest.lat);
                    assert(gl + before.lat =~= gl.push(Option::<int>::None) + rest.lat);
                    assert(gm + before.matched =~= gm + rest.matched);
                }
                latency.push((i, None));
                let description = step.describe();
                missing.push(MissingStepSerial { expect_idx: i, description, reason });
                proof {
                    gs = gs.push((i as int, rtext));
                    gl = gl.push(Option::<int>::None);
                }
            },
        }
        i = i + 1;
    }
    proof {
        let rest = spec_align(
            ground.steps@,
            actions@,
            ws_events@,
            *settings,
            i as int,
            start as int,
            last_ts,
        );
        assert(full.matched =~= gm);
        assert(full.missing =~= gs);
        assert(full.lat =~= gl);
        lemma_align_monotone(
            ground.steps@,
            actions@,
            ws_events@,
            *settings,
            0,
            0,
            Option::None,
        );
    }
    let pass = missing.len() == 0;
    let case_id = clone_opt_string(&ground.case_id);
    EvalHian {
        pass,
        case_id,
        matched,
        missing,
        metrics: Metrics { latency_ms: latency, window_ms: settings.window_ms },
        settings: SettingsUsed {
            within_ms: settings.within_ms,
            window_ms: settings.window_ms,
            amount_tolerance: settings.amount_tolerance,
            px_tolerance_pct: settings.px_tolerance_pct,
            sz_tolerance_pct: settings.sz_tolerance_pct,
        },
    }
}

} // verus!
