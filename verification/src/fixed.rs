//! Fixed-point scalars.
//!
//! Every geometric and radiometric quantity in this crate is a fixed-point
//! number: an `i64` holding the real value multiplied by [`SCALE`].  Using
//! integers keeps the whole bake exactly reproducible and lets every
//! arithmetic step be specified and verified precisely.

use vstd::prelude::*;

verus! {

/// One unit (1.0) in fixed-point representation: 16 fractional bits.
pub const SCALE: i64 = 65536;

/// Brightness values saturate at this bound (65536.0 units).  The cap is a
/// representation limit, far above any physically meaningful radiosity
/// value, and keeps the energy-transfer arithmetic free of overflow.
pub const BRIGHT_LIMIT: i64 = 4294967296;

/// Saturation applied to every brightness accumulation step.
pub open spec fn cap_bright(x: int) -> int {
    if x > BRIGHT_LIMIT {
        BRIGHT_LIMIT as int
    } else {
        x
    }
}

/// Truncating (round toward zero) division, the semantics of `/` on signed
/// integers in executable code; `b` must be positive.
pub open spec fn tdiv(a: int, b: int) -> int {
    if a >= 0 {
        a / b
    } else {
        -((-a) / b)
    }
}

/// The integer square root: the largest `r` with `r * r <= n`.
pub open spec fn sqrt_floor(n: nat) -> nat
    decreases n,
{
    if n == 0 {
        0
    } else {
        let s = sqrt_floor((n - 1) as nat);
        if (s + 1) * (s + 1) <= n {
            (s + 1) as nat
        } else {
            s
        }
    }
}

pub proof fn lemma_sqrt_floor(n: nat)
    ensures
        sqrt_floor(n) * sqrt_floor(n) <= n,
        n < (sqrt_floor(n) + 1) * (sqrt_floor(n) + 1),
    decreases n,
{
    let r = sqrt_floor(n);
    if n == 0 {
        assert(r == 0);
        assert(r * r <= n && n < (r + 1) * (r + 1)) by (nonlinear_arith)
            requires
                r == 0,
                n == 0,
        ;
    } else {
        lemma_sqrt_floor((n - 1) as nat);
        let s = sqrt_floor((n - 1) as nat);
        if (s + 1) * (s + 1) <= n {
            assert(r == s + 1);
            assert(r * r <= n && n < (r + 1) * (r + 1)) by (nonlinear_arith)
                requires
                    r == s + 1,
                    (s + 1) * (s + 1) <= n,
                    n - 1 < (s + 1) * (s + 1),
            ;
        } else {
            assert(r == s);
            assert(r * r <= n && n < (r + 1) * (r + 1)) by (nonlinear_arith)
                requires
                    r == s,
                    s * s <= n - 1,
                    n < (s + 1) * (s + 1),
                    n >= 1,
            ;
        }
    }
}

pub proof fn lemma_sqrt_unique(n: nat, r: nat)
    requires
        r * r <= n,
        n < (r + 1) * (r + 1),
    ensures
        r == sqrt_floor(n),
{
    lemma_sqrt_floor(n);
    let s = sqrt_floor(n);
    assert(r == s) by (nonlinear_arith)
        requires
            r * r <= n,
            n < (r + 1) * (r + 1),
            s * s <= n,
            n < (s + 1) * (s + 1),
    ;
}

/// Integer square root by bisection.
pub fn isqrt(n: u64) -> (r: u64)
    requires
        n < 0x4000_0000_0000_0000,
    ensures
        r == sqrt_floor(n as nat),
{
    let mut lo: u64 = 0;
    let mut hi: u64 = 2147483648;
    proof {
        assert((2147483648u64 as int) * (2147483648u64 as int) > n) by (nonlinear_arith)
            requires
                n < 0x4000_0000_0000_0000,
        ;
    }
    while lo + 1 < hi
        invariant
            lo < hi <= 2147483648,
            lo * lo <= n,
            n < hi * hi,
        decreases hi - lo,
    {
        let mid: u64 = lo + (hi - lo) / 2;
        proof {
            assert(mid * mid <= (2147483648u64 as int) * (2147483648u64 as int)) by (nonlinear_arith)
                requires
                    0 <= mid <= 2147483648u64,
            ;
        }
        if mid * mid <= n {
            lo = mid;
        } else {
            hi = mid;
        }
    }
    proof {
        lemma_sqrt_unique(n as nat, lo as nat);
    }
    lo
}

} // verus!
