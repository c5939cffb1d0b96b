//! Exact decimal values.
//!
//! Objective values, targets and region-of-interest bounds are carried as
//! exact decimals `m * 10^e` so that every comparison the harness makes is
//! exact; the native floating-point world is converted at the edge.

use vstd::prelude::*;

verus! {

/// An exact decimal number with value `m * 10^e`.
#[derive(Clone, Copy, Debug, PartialEq, Eq, Structural)]
pub struct Dec {
    pub m: i64,
    pub e: i32,
}

/// `10^n` as a mathematical integer.
pub open spec fn pow10(n: nat) -> int
    decreases n,
{
    if n == 0 {
        1
    } else {
        10 * pow10((n - 1) as nat)
    }
}

pub proof fn lemma_pow10_pos(n: nat)
    ensures
        pow10(n) >= 1,
    decreases n,
{
    if n > 0 {
        lemma_pow10_pos((n - 1) as nat);
    }
}

pub proof fn lemma_pow10_mono(a: nat, b: nat)
    requires
        a <= b,
    ensures
        pow10(a) <= pow10(b),
    decreases b,
{
    if a < b {
        lemma_pow10_mono(a, (b - 1) as nat);
        lemma_pow10_pos((b - 1) as nat);
    }
}

/// `a <= b` as decimal values: both sides brought to the smaller exponent.
pub open spec fn dec_le(a: Dec, b: Dec) -> bool {
    if a.e >= b.e {
        a.m * pow10((a.e - b.e) as nat) <= b.m
    } else {
        a.m <= b.m * pow10((b.e - a.e) as nat)
    }
}

/// `a < b` as decimal values.
pub open spec fn dec_lt(a: Dec, b: Dec) -> bool {
    if a.e >= b.e {
        a.m * pow10((a.e - b.e) as nat) < b.m
    } else {
        a.m < b.m * pow10((b.e - a.e) as nat)
    }
}

impl Dec {
    pub open spec fn spec_new(m: i64, e: i32) -> Dec {
        Dec { m, e }
    }

    /// Builds the decimal `m * 10^e`.
    pub fn new(m: i64, e: i32) -> (r: Dec)
        ensures
            r == Dec::spec_new(m, e),
    {
        Dec { m, e }
    }

    /// Exact comparison `self <= other`.
    pub fn le(&self, other: &Dec) -> (r: bool)
        ensures
            r == dec_le(*self, *other),
    {
        if self.e == other.e {
            self.m <= other.m
        } else if self.e > other.e {
            let d: u64 = (self.e as i64 - other.e as i64) as u64;
            cmp_scaled_le(self.m, d, other.m)
        } else {
            let d: u64 = (other.e as i64 - self.e as i64) as u64;
            cmp_le_scaled(self.m, other.m, d)
        }
    }

    /// Exact comparison `self < other`.
    pub fn lt(&self, other: &Dec) -> (r: bool)
        ensures
            r == dec_lt(*self, *other),
    {
        proof {
            lemma_le_lt_dual(*self, *other);
        }
        !other.le(self)
    }
}

/// `a < b` holds exactly when `b <= a` fails: the scaled comparisons are a
/// total order on the underlying integers.
pub proof fn lemma_le_lt_dual(a: Dec, b: Dec)
    ensures
        dec_lt(a, b) == !dec_le(b, a),
{
    assert(pow10(0) == 1);
    if a.e == b.e {
        assert(a.m * pow10((a.e - b.e) as nat) == a.m);
        assert(b.m * pow10((b.e - a.e) as nat) == b.m);
    }
}

/// Concrete bounds of the power table that the exact comparisons lean on.
pub proof fn lemma_pow10_bounds()
    ensures
        pow10(38) < i128::MAX,
        pow10(39) > i64::MAX,
        -pow10(39) < i64::MIN,
{
    reveal_with_fuel(pow10, 40);
}

/// `10^d` as an `i128`; only defined up to `10^38`, which still fits.
fn pow10_i128(d: u64) -> (r: i128)
    requires
        d <= 38,
    ensures
        r == pow10(d as nat),
{
    proof {
        lemma_pow10_bounds();
    }
    let mut r: i128 = 1;
    let mut i: u64 = 0;
    while i < d
        invariant
            i <= d <= 38,
            r == pow10(i as nat),
            pow10(38) < i128::MAX,
        decreases d - i,
    {
        proof {
            lemma_pow10_mono((i + 1) as nat, 38);
            lemma_pow10_pos(i as nat);
        }
        r = r * 10;
        i = i + 1;
    }
    proof {
        lemma_pow10_mono(d as nat, 38);
        lemma_pow10_pos(d as nat);
    }
    r
}

/// Decides `am * 10^d <= bm` exactly.
fn cmp_scaled_le(am: i64, d: u64, bm: i64) -> (r: bool)
    requires
        d >= 1,
    ensures
        r == (am * pow10(d as nat) <= bm),
{
    if am == 0 {
        return 0 <= bm;
    }
    if d > 38 {
        proof {
            lemma_pow10_bounds();
            lemma_pow10_mono(39, d as nat);
            if am >= 1 {
                assert(am * pow10(d as nat) >= pow10(d as nat)) by (nonlinear_arith)
                    requires
                        am >= 1,
                        pow10(d as nat) >= 0,
                ;
            } else {
                assert(am * pow10(d as nat) <= -pow10(d as nat)) by (nonlinear_arith)
                    requires
                        am <= -1,
                        pow10(d as nat) >= 0,
                ;
            }
        }
        return am < 0;
    }
    let p10 = pow10_i128(d);
    proof {
        lemma_pow10_pos(d as nat);
    }
    match (am as i128).checked_mul(p10) {
        Some(p) => p <= bm as i128,
        None => {
            proof {
                let prod = am * pow10(d as nat);
                if prod > i128::MAX {
                    assert(am > 0) by (nonlinear_arith)
                        requires
                            am * pow10(d as nat) > 0,
                            pow10(d as nat) >= 1,
                    ;
                } else {
                    assert(am < 0) by (nonlinear_arith)
                        requires
                            am * pow10(d as nat) < 0,
                            pow10(d as nat) >= 1,
                    ;
                }
            }
            am < 0
        },
    }
}

/// Decides `am <= bm * 10^d` exactly.
fn cmp_le_scaled(am: i64, bm: i64, d: u64) -> (r: bool)
    requires
        d >= 1,
    ensures
        r == (am <= bm * pow10(d as nat)),
{
    if bm == 0 {
        return am <= 0;
    }
    if d > 38 {
        proof {
            lemma_pow10_bounds();
            lemma_pow10_mono(39, d as nat);
            if bm >= 1 {
                assert(bm * pow10(d as nat) >= pow10(d as nat)) by (nonlinear_arith)
                    requires
                        bm >= 1,
                        pow10(d as nat) >= 0,
                ;
            } else {
                assert(bm * pow10(d as nat) <= -pow10(d as nat)) by (nonlinear_arith)
                    requires
                        bm <= -1,
                        pow10(d as nat) >= 0,
                ;
            }
        }
        return bm > 0;
    }
    let p10 = pow10_i128(d);
    proof {
        lemma_pow10_pos(d as nat);
    }
    match (bm as i128).checked_mul(p10) {
        Some(p) => am as i128 <= p,
        None => {
            proof {
                let prod = bm * pow10(d as nat);
                if prod > i128::MAX {
                    assert(bm > 0) by (nonlinear_arith)
                        requires
                            bm * pow10(d as nat) > 0,
                            pow10(d as nat) >= 1,
                    ;
                } else {
                    assert(bm < 0) by (nonlinear_arith)
                        requires
                            bm * pow10(d as nat) < 0,
                            pow10(d as nat) >= 1,
                    ;
                }
            }
            bm > 0
        },
    }
}

} // verus!
