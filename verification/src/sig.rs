//! Canonical coverage signatures: short strings of the shape
//! `<namespace>.<kind>[:discriminator]*` naming one exercised capability.

use vstd::prelude::*;
use crate::text::lower_seq;
use crate::text::lower_str;
use crate::text::str_eq;
use crate::text::upper_seq;
use crate::text::upper_str;

verus! {

use vstd::string::StringExecFns;

/// The text "true" or "false", as `format!` would print a boolean.
pub open spec fn bool_text(b: bool) -> Seq<char> {
    if b {
        "true"@
    } else {
        "false"@
    }
}

/// Normalized coverage signature wrapper used by the evaluator.
#[derive(Debug, Clone)]
pub struct Signature(pub String);

/// The signature text of one placed perpetual order: time-in-force folded
/// to upper case, then the reduce-only flag, then the trigger kind.
pub open spec fn perp_order_text(tif: Seq<char>, reduce_only: bool, trigger: Seq<char>) -> Seq<
    char,
> {
    "perp.order."@ + upper_seq(tif) + ":"@ + bool_text(reduce_only) + ":"@ + trigger
}

pub open spec fn perp_cancel_text(scope: Seq<char>) -> Seq<char> {
    "perp.cancel."@ + scope
}

pub open spec fn transfer_text(direction: Seq<char>) -> Seq<char> {
    "account.usdClassTransfer."@ + direction
}

pub open spec fn leverage_text(coin: Seq<char>) -> Seq<char> {
    "risk.setLeverage."@ + upper_seq(coin)
}

impl Signature {
    pub fn perp_order(tif: &str, reduce_only: bool, trigger: &str) -> (r: Self)
        ensures
            r.0@ == perp_order_text(tif@, reduce_only, trigger@),
    {
        let mut s = String::new();
        s.append("perp.order.");
        let up = upper_str(tif);
        s.append(up.as_str());
        s.append(":");
        if reduce_only {
            s.append("true");
        } else {
            s.append("false");
        }
        s.append(":");
        s.append(trigger);
        proof {
            assert(s@ =~= perp_order_text(tif@, reduce_only, trigger@));
        }
        Signature(s)
    }

    pub fn perp_cancel(scope: &str) -> (r: Self)
        ensures
            r.0@ == perp_cancel_text(scope@),
    {
        let mut s = String::new();
        s.append("perp.cancel.");
        s.append(scope);
        proof {
            assert(s@ =~= perp_cancel_text(scope@));
        }
        Signature(s)
    }

    pub fn account_usd_class_transfer(direction: &str) -> (r: Self)
        ensures
            r.0@ == transfer_text(direction@),
    {
        let mut s = String::new();
        s.append("account.usdClassTransfer.");
        s.append(direction);
        proof {
            assert(s@ =~= transfer_text(direction@));
        }
        Signature(s)
    }

    pub fn risk_set_leverage(coin: &str) -> (r: Self)
        ensures
            r.0@ == leverage_text(coin@),
    {
        let mut s = String::new();
        s.append("risk.setLeverage.");
        let up = upper_str(coin);
        s.append(up.as_str());
        proof {
            assert(s@ =~= leverage_text(coin@));
        }
        Signature(s)
    }

    pub fn into_inner(self) -> (r: String)
        ensures
            r@ == self.0@,
    {
        self.0
    }

    pub fn as_str(&self) -> (r: &str)
        ensures
            r@ == self.0@,
    {
        self.0.as_str()
    }
}

/// The recognized time-in-force labels; anything unknown falls back to GTC.
pub open spec fn normalize_tif_text(raw: Seq<char>) -> Seq<char> {
    if upper_seq(raw) == "ALO"@ {
        "ALO"@
    } else if upper_seq(raw) == "IOC"@ {
        "IOC"@
    } else {
        "GTC"@
    }
}

pub fn normalize_tif(raw: &str) -> (r: &'static str)
    ensures
        r@ == normalize_tif_text(raw@),
{
    let up = upper_str(raw);
    if str_eq(up.as_str(), "ALO") {
        "ALO"
    } else if str_eq(up.as_str(), "IOC") {
        "IOC"
    } else {
        "GTC"
    }
}

/// The trigger discriminator of an order: the trigger kind folded to lower
/// case, or "none" when the order carries no trigger.
pub open spec fn normalize_trigger_text(kind: Option<Seq<char>>) -> Seq<char> {
    match kind {
        Option::Some(k) => lower_seq(k),
        Option::None => "none"@,
    }
}

pub fn normalize_trigger(kind: &Option<String>) -> (r: String)
    ensures
        r@ == normalize_trigger_text(match kind {
            Option::Some(k) => Option::Some(k@),
            Option::None => Option::None,
        }),
{
    match kind {
        Option::Some(k) => lower_str(k.as_str()),
        Option::None => {
            let mut s = String::new();
            s.append("none");
            proof {
                assert(s@ =~= "none"@);
            }
            s
        },
    }
}

} // verus!
