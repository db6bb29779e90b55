//! Window bucketing of submit timestamps.

use vstd::prelude::*;

verus! {

/// Division truncating toward zero, as Rust's `/` on signed integers does.
pub open spec fn trunc_div(a: int, b: int) -> int {
    if a >= 0 {
        a / b
    } else {
        -((-a) / b)
    }
}

/// The start of the window containing `ts_ms`: the timestamp rounded toward
/// zero to a multiple of the window size. A non-positive window size leaves
/// the timestamp unchanged.
pub open spec fn window_start(ts_ms: int, window_ms: int) -> int {
    if window_ms <= 0 {
        ts_ms
    } else {
        trunc_div(ts_ms, window_ms) * window_ms
    }
}

/// Returns the floor of the timestamp to the given window size in
/// milliseconds.
pub fn window_start_ms(ts_ms: i64, window_ms: i64) -> (r: i64)
    ensures
        r == window_start(ts_ms as int, window_ms as int),
{
    if window_ms <= 0 {
        return ts_ms;
    }
    let w: u64 = window_ms as u64;
    if ts_ms >= 0 {
        let t: u64 = ts_ms as u64;
        let q: u64 = t / w;
        proof {
            vstd::arithmetic::div_mod::lemma_fundamental_div_mod(t as int, w as int);
            vstd::arithmetic::mul::lemma_mul_is_commutative(w as int, q as int);
        }
        let r: u64 = q * w;
        proof {
            assert(r as int == trunc_div(ts_ms as int, window_ms as int) * (window_ms as int));
        }
        r as i64
    } else {
        let t: u128 = (-(ts_ms as i128)) as u128;
        let q: u128 = t / (w as u128);
        proof {
            vstd::arithmetic::div_mod::lemma_fundamental_div_mod(t as int, w as int);
            vstd::arithmetic::mul::lemma_mul_is_commutative(w as int, q as int);
        }
        let m: u128 = q * (w as u128);
        proof {
            vstd::arithmetic::mul::lemma_mul_unary_negation(q as int, w as int);
            assert(t as int == -(ts_ms as int));
            assert(q as int == trunc_div(-(ts_ms as int), window_ms as int));
            assert(-(m as int) == trunc_div(ts_ms as int, window_ms as int) * (window_ms as int));
        }
        (-(m as i128)) as i64
    }
}

} // verus!
