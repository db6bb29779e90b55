//! The runner-plan data model: ordered action steps with kind-specific
//! payloads. The evaluator shares these types with the plan-executing
//! side, whose I/O stays outside this crate. Amounts, sizes and prices
//! are fixed-point integers in micro-units.

use vstd::prelude::*;
use crate::text::all_digits;
use crate::text::digits_val;
use crate::text::split_on;
use crate::text::str_to_chars;
use crate::text::sep_free;
use crate::text::lemma_split_whole;
use crate::text::lemma_split_contains;

verus! {

/// Parsed representation of a runner plan.
#[derive(Debug)]
pub struct Plan {
    pub steps: Vec<ActionStep>,
}

/// Step variants supported by the runner.
#[derive(Debug)]
pub enum ActionStep {
    PerpOrders { perp_orders: PerpOrdersStep },
    CancelLast { cancel_last: CancelLastStep },
    CancelOids { cancel_oids: CancelOidsStep },
    CancelAll { cancel_all: CancelAllStep },
    UsdClassTransfer { usd_class_transfer: UsdClassTransferStep },
    SetLeverage { set_leverage: SetLeverageStep },
    Sleep { sleep_ms: SleepMsStep },
}

pub open spec fn step_kind_text(s: ActionStep) -> Seq<char> {
    match s {
        ActionStep::PerpOrders { .. } => "perp_orders"@,
        ActionStep::CancelLast { .. } => "cancel_last"@,
        ActionStep::CancelOids { .. } => "cancel_oids"@,
        ActionStep::CancelAll { .. } => "cancel_all"@,
        ActionStep::UsdClassTransfer { .. } => "usd_class_transfer"@,
        ActionStep::SetLeverage { .. } => "set_leverage"@,
        ActionStep::Sleep { .. } => "sleep_ms"@,
    }
}

impl ActionStep {
    pub fn kind(&self) -> (r: &'static str)
        ensures
            r@ == step_kind_text(*self),
    {
        match self {
            ActionStep::PerpOrders { .. } => "perp_orders",
            ActionStep::CancelLast { .. } => "cancel_last",
            ActionStep::CancelOids { .. } => "cancel_oids",
            ActionStep::CancelAll { .. } => "cancel_all",
            ActionStep::UsdClassTransfer { .. } => "usd_class_transfer",
            ActionStep::SetLeverage { .. } => "set_leverage",
            ActionStep::Sleep { .. } => "sleep_ms",
        }
    }

    pub fn as_perp_orders(&self) -> (r: Option<&PerpOrdersStep>)
        ensures
            match r {
                Some(p) => self matches ActionStep::PerpOrders { perp_orders } && p == perp_orders,
                None => !(self is PerpOrders),
            },
    {
        match self {
            ActionStep::PerpOrders { perp_orders } => Some(perp_orders),
            _ => None,
        }
    }

    pub fn as_cancel_scope(&self) -> (r: Option<CancelScope>)
        ensures
            match r {
                Some(c) => match c {
                    CancelScope::Last { cancel_last } => self matches ActionStep::CancelLast {
                        cancel_last: g,
                    } && cancel_last == g,
                    CancelScope::Oids { cancel_oids } => self matches ActionStep::CancelOids {
                        cancel_oids: g,
                    } && cancel_oids == g,
                    CancelScope::All { cancel_all } => self matches ActionStep::CancelAll {
                        cancel_all: g,
                    } && cancel_all == g,
                },
                None => !(self is CancelLast) && !(self is CancelOids) && !(self is CancelAll),
            },
    {
        match self {
            ActionStep::CancelLast { cancel_last } => Some(CancelScope::Last { cancel_last }),
            ActionStep::CancelOids { cancel_oids } => Some(CancelScope::Oids { cancel_oids }),
            ActionStep::CancelAll { cancel_all } => Some(CancelScope::All { cancel_all }),
            _ => None,
        }
    }
}

/// A borrowed view of the three cancel step shapes.
#[derive(Debug)]
pub enum CancelScope<'a> {
    Last { cancel_last: &'a CancelLastStep },
    Oids { cancel_oids: &'a CancelOidsStep },
    All { cancel_all: &'a CancelAllStep },
}

#[derive(Debug)]
pub struct PerpOrdersStep {
    pub orders: Vec<PerpOrder>,
    pub builder_code: Option<String>,
}

#[derive(Debug)]
pub struct CancelLastStep {
    pub coin: Option<String>,
}

#[derive(Debug)]
pub struct CancelOidsStep {
    pub coin: String,
    pub oids: Vec<u64>,
}

#[derive(Debug)]
pub struct CancelAllStep {
    pub coin: Option<String>,
}

#[derive(Debug)]
pub struct UsdClassTransferStep {
    pub to_perp: bool,
    /// Amount in micro-units.
    pub usdc: i64,
}

#[derive(Debug)]
pub struct SetLeverageStep {
    pub coin: String,
    pub leverage: u32,
    pub cross: bool,
}

#[derive(Debug)]
pub struct SleepMsStep {
    pub duration_ms: u64,
}

/// One order of a plan step.
#[derive(Debug)]
pub struct PerpOrder {
    pub coin: String,
    pub tif: PerpTif,
    pub side: OrderSide,
    /// Size in micro-units.
    pub sz: i64,
    pub reduce_only: bool,
    pub builder_code: Option<String>,
    pub cloid: Option<String>,
    pub trigger: Option<OrderTrigger>,
    pub px: OrderPrice,
}

impl PerpOrder {
    pub fn is_buy(&self) -> (r: bool)
        ensures
            r == (self.side is Buy),
    {
        matches!(self.side, OrderSide::Buy)
    }
}

#[derive(Debug, Clone, Copy)]
pub enum PerpTif {
    Alo,
    Gtc,
    Ioc,
}

pub open spec fn tif_sdk_text(t: PerpTif) -> Seq<char> {
    match t {
        PerpTif::Alo => "Alo"@,
        PerpTif::Gtc => "Gtc"@,
        PerpTif::Ioc => "Ioc"@,
    }
}

impl PerpTif {
    pub fn as_sdk_str(&self) -> (r: &'static str)
        ensures
            r@ == tif_sdk_text(*self),
    {
        match self {
            PerpTif::Alo => "Alo",
            PerpTif::Gtc => "Gtc",
            PerpTif::Ioc => "Ioc",
        }
    }
}

impl Default for PerpTif {
    /// The default time-in-force is good-till-cancel.
    fn default() -> (r: Self)
        ensures
            r is Gtc,
    {
        PerpTif::Gtc
    }
}

#[derive(Debug, Clone, Copy)]
pub enum OrderSide {
    Buy,
    Sell,
}

impl OrderSide {
    pub fn as_bool(&self) -> (r: bool)
        ensures
            r == (self is Buy),
    {
        matches!(self, OrderSide::Buy)
    }
}

/// A trigger on an order: none, take-profit, or stop-loss.
#[derive(Debug)]
pub enum OrderTrigger {
    NoTrigger,
    Tp { px: OrderPrice },
    Sl { px: OrderPrice },
}

/// An order price: absolute in micro-units, or an offset from the mid
/// price in micro-percentage points.
#[derive(Debug, Clone, Copy)]
pub enum OrderPrice {
    Absolute(i64),
    MidPercent { offset_pct: i64 },
}

/// What resolving a price against a mid price yields: the absolute price
/// itself, or the mid price scaled by one plus the percent offset, rounded
/// toward zero.
pub open spec fn resolved_price(p: OrderPrice, mid: int) -> int {
    match p {
        OrderPrice::Absolute(px) => px as int,
        OrderPrice::MidPercent { offset_pct } => crate::time::trunc_div(
            mid * (100000000 + offset_pct),
            100000000,
        ),
    }
}

impl OrderPrice {
    /// Resolves the price against a mid price, both in micro-units. The
    /// offset factor must not invert the sign scale beyond representation:
    /// the result is clamped into the representable range.
    pub fn resolve_with_mid(&self, mid: i64) -> (r: i64)
        ensures
            (r as int) == resolved_clamped(*self, mid as int),
    {
        match self {
            OrderPrice::Absolute(px) => *px,
            OrderPrice::MidPercent { offset_pct } => {
                let factor: i128 = 100000000i128 + (*offset_pct as i128);
                proof {
                    assert((mid as int) * (factor as int)
                        <= 0x7FFF_FFFF_FFFF_FFFF_FFFF_FFFF_FFFF_FFFEint && (mid as int) * (
                    factor as int) >= -0x7FFF_FFFF_FFFF_FFFF_FFFF_FFFF_FFFF_FFFEint) by (nonlinear_arith)
                        requires
                            -0x8000_0000_0000_0000 <= (mid as int) <= 0x7FFF_FFFF_FFFF_FFFF,
                            -0x7FFF_FFFF_FA0A_1F00 <= (factor as int) <= 0x8000_0000_05F5_E0FF,
                    ;
                }
                let prod: i128 = (mid as i128) * factor;
                let q: i128 = div_trunc_i128(prod, 100000000);
                if q > 0x7FFF_FFFF_FFFF_FFFFi128 {
                    0x7FFF_FFFF_FFFF_FFFF
                } else if q < -0x8000_0000_0000_0000i128 {
                    -0x8000_0000_0000_0000
                } else {
                    q as i64
                }
            },
        }
    }
}

/// The resolved price clamped into the representable range.
pub open spec fn resolved_clamped(p: OrderPrice, mid: int) -> int {
    let v = resolved_price(p, mid);
    if v > 0x7FFF_FFFF_FFFF_FFFF {
        0x7FFF_FFFF_FFFF_FFFF
    } else if v < -0x8000_0000_0000_0000 {
        -0x8000_0000_0000_0000
    } else {
        v
    }
}

/// Truncating division of a wide value by a positive constant.
fn div_trunc_i128(a: i128, b: i128) -> (r: i128)
    requires
        b > 0,
        a > -0x8000_0000_0000_0000_0000_0000_0000_0000,
    ensures
        r == crate::time::trunc_div(a as int, b as int),
{
    if a >= 0 {
        let q = (a as u128) / (b as u128);
        proof {
            vstd::arithmetic::div_mod::lemma_div_basics_5(a as int, b as int);
        }
        q as i128
    } else {
        let m: u128 = (-a) as u128;
        let q = m / (b as u128);
        proof {
            vstd::arithmetic::div_mod::lemma_div_basics_5(m as int, b as int);
        }
        -(q as i128)
    }
}

/// The digits of a selector index: an optional leading `+` sign is
/// accepted, as machine-integer parsing accepts it.
pub open spec fn index_digits(tail: Seq<char>) -> Seq<char> {
    if tail.len() >= 1 && tail[0] == '+' {
        tail.drop_first()
    } else {
        tail
    }
}

/// The reading of a plan-source selector `path[:index]`: a trailing
/// decimal index after the last colon, in the machine range, selects one
/// line of the file; any other trailing text leaves the whole text as the
/// path.
pub open spec fn spec_split_spec(s: Seq<char>) -> (Seq<char>, Option<int>) {
    let parts = split_on(s, ':');
    let digits = index_digits(parts.last());
    if parts.len() >= 2 && digits.len() >= 1 && all_digits(digits) && digits_val(digits)
        <= usize::MAX as int {
        (s.take(s.len() - parts.last().len() - 1), Some(digits_val(digits)))
    } else {
        (s, None)
    }
}

/// Splits a plan-source selector into its path and optional line index.
#[verifier::rlimit(100)]
pub fn split_spec(spec: &str) -> (r: (String, Option<usize>))
    ensures
        r.0@ == spec_split_spec(spec@).0,
        (match r.1 {
            Some(v) => Some(v as int),
            None => None,
        }) == spec_split_spec(spec@).1,
{
    let chars = str_to_chars(spec);
    let n = chars.len();
    // Find the last colon.
    let mut last_colon: usize = n;
    let mut i: usize = 0;
    while i < n
        invariant
            i <= n,
            n == spec@.len(),
            chars@ == spec@,
            last_colon == n || (last_colon < i && spec@[last_colon as int] == ':'),
            forall|j: int| last_colon < j < i && j != last_colon ==> spec@[j] != ':',
            last_colon == n ==> forall|j: int| 0 <= j < i ==> spec@[j] != ':',
        decreases n - i,
    {
        if chars[i] == ':' {
            last_colon = i;
        }
        i = i + 1;
    }
    if last_colon == n {
        // No colon at all: the whole text is the path.
        proof {
            crate::text::lemma_split_on_len(spec@, ':');
            assert(sep_free(spec@, ':'));
            lemma_split_whole(spec@, ':');
        }
        let path = crate::text::chars_to_string(&chars);
        return (path, None);
    }
    let ghost prefix = spec@.take(last_colon as int);
    let ghost tail = spec@.subrange(last_colon + 1, n as int);
    proof {
        assert(sep_free(tail, ':'));
        assert(spec@ =~= prefix + seq![':'] + tail);
        lemma_split_tail(prefix, tail);
    }
    // An optional leading plus sign before the digits.
    let digits_from: usize = if last_colon + 1 < n && chars[last_colon + 1] == '+' {
        last_colon + 2
    } else {
        last_colon + 1
    };
    proof {
        assert(chars@.subrange(digits_from as int, n as int) =~= index_digits(tail));
    }
    let tail_val = crate::text::digits_value_u64(&chars, digits_from, n);
    let idx: Option<usize> = match tail_val {
        Some(v) => {
            if digits_from == n || v > usize::MAX as u64 {
                None
            } else {
                Some(v as usize)
            }
        },
        None => None,
    };
    match idx {
        Some(v) => {
            let mut path_chars: Vec<char> = Vec::new();
            let mut k: usize = 0;
            while k < last_colon
                invariant
                    k <= last_colon < n,
                    n == spec@.len(),
                    chars@ == spec@,
                    path_chars@ == spec@.take(k as int),
                decreases last_colon - k,
            {
                path_chars.push(chars[k]);
                proof {
                    assert(path_chars@ =~= spec@.take(k + 1));
                }
                k = k + 1;
            }
            let path = crate::text::chars_to_string(&path_chars);
            proof {
                assert(spec@.take(spec@.len() - (n - (last_colon + 1)) - 1) =~= spec@.take(
                    last_colon as int,
                ));
            }
            (path, Some(v))
        },
        None => {
            let path = crate::text::chars_to_string(&chars);
            (path, None)
        },
    }
}

/// The split of `prefix:tail` with a colon-free tail: the tail is the
/// last piece.
proof fn lemma_split_tail(prefix: Seq<char>, tail: Seq<char>)
    requires
        sep_free(tail, ':'),
    ensures
        split_on(prefix + seq![':'] + tail, ':').last() == tail,
        split_on(prefix + seq![':'] + tail, ':').len() >= 2,
    decreases prefix.len(),
{
    let s = prefix + seq![':'] + tail;
    assert(s[prefix.len() as int] == ':');
    lemma_split_contains(s, ':');
    if prefix.len() == 0 {
        assert(s =~= seq![':'] + tail);
        assert(s[0] == ':');
        assert(s.drop_first() =~= tail);
        lemma_split_whole(tail, ':');
        crate::text::lemma_split_on_len(tail, ':');
    } else {
        assert(s[0] == prefix[0]);
        assert(s.drop_first() =~= prefix.drop_first() + seq![':'] + tail);
        lemma_split_tail(prefix.drop_first(), tail);
        crate::text::lemma_split_on_len(s.drop_first(), ':');
    }
}

} // verus!
