//! Index arithmetic modulo a fixed capacity.
//!
//! Ring-buffer positions live in `[0, cap)` and advance or retreat with
//! wraparound.  The two helpers here perform that arithmetic without ever
//! overflowing, and their contracts tie the results to mathematical
//! remainders so that the buffer's view can be reasoned about directly.

use vstd::arithmetic::div_mod::{
    lemma_fundamental_div_mod, lemma_fundamental_div_mod_converse_mod,
};
use vstd::prelude::*;

verus! {

/// Addition modulo `cap`: the slot `n1` places after slot `n0`.
pub(crate) fn capped_add(n0: usize, n1: usize, cap: usize) -> (r: usize)
    requires
        0 < cap,
        n0 < cap,
        n1 <= cap,
    ensures
        r == (n0 + n1) % (cap as int),
        r < cap,
{
    if n1 >= cap - n0 {
        proof {
            lemma_fundamental_div_mod_converse_mod(
                n0 + n1,
                cap as int,
                1,
                n0 + n1 - cap,
            );
        }
        n1 - (cap - n0)
    } else {
        proof {
            lemma_fundamental_div_mod_converse_mod(n0 + n1, cap as int, 0, n0 + n1);
        }
        n0 + n1
    }
}

/// Subtraction modulo `cap`: the slot `n1` places before slot `n0`,
/// wrapping past the start of storage.
pub(crate) fn capped_sub(n0: usize, n1: usize, cap: usize) -> (r: usize)
    requires
        0 < cap,
        n0 < cap,
        n1 <= cap,
    ensures
        r == (n0 - n1) % (cap as int),
        r < cap,
{
    if n0 >= n1 {
        proof {
            lemma_fundamental_div_mod_converse_mod(n0 - n1, cap as int, 0, n0 - n1);
        }
        n0 - n1
    } else {
        proof {
            lemma_fundamental_div_mod_converse_mod(
                n0 - n1,
                cap as int,
                -1,
                n0 - n1 + cap,
            );
        }
        n0 + (cap - n1)
    }
}

/// Two in-range offsets from the same origin that land on the same slot
/// are equal: the wraparound map is injective on `[0, cap)`.
pub(crate) proof fn lemma_wrap_injective(h: int, a: int, b: int, cap: int)
    requires
        0 < cap,
        0 <= a < cap,
        0 <= b < cap,
        (h + a) % cap == (h + b) % cap,
    ensures
        a == b,
{
    lemma_fundamental_div_mod(h + a, cap);
    lemma_fundamental_div_mod(h + b, cap);
    let qa = (h + a) / cap;
    let qb = (h + b) / cap;
    let m = (h + a) % cap;
    assert(a == b) by (nonlinear_arith)
        requires
            0 < cap,
            h + a == cap * qa + m,
            h + b == cap * qb + m,
            0 <= a < cap,
            0 <= b < cap,
    ;
}

} // verus!
