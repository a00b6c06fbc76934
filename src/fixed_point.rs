//! Overflow-safe proportional arithmetic: `a * b / c` on 128-bit operands
//! whose product may need 256 bits.

use vstd::arithmetic::div_mod::{
    lemma_div_is_ordered, lemma_fundamental_div_mod, lemma_fundamental_div_mod_converse,
    lemma_mod_bound,
};
use vstd::prelude::*;

verus! {

/// `a * b / c` rounded down.
pub open spec fn mul_div_down(a: int, b: int, c: int) -> int {
    (a * b) / c
}

/// `a * b / c` rounded up.
pub open spec fn mul_div_up(a: int, b: int, c: int) -> int {
    (a * b + c - 1) / c
}

/// Adds two residues modulo `c`, returning the new residue and the carry.
fn add_mod(x: u128, y: u128, c: u128) -> (r: (u128, u128))
    requires
        x < c,
        y < c,
    ensures
        r.0 < c,
        r.1 <= 1,
        x + y == r.1 * c + r.0,
{
    if x >= c - y {
        (x - (c - y), 1)
    } else {
        (x + y, 0)
    }
}

proof fn lemma_step(a: int, bp: int, bit: int, q: int, r: int, qa: int, ra: int, c: int, d: int, r2: int, e: int, r3: int)
    requires
        a * bp == q * c + r,
        a == qa * c + ra,
        2 * r == d * c + r2,
        r2 + bit * ra == e * c + r3,
    ensures
        a * (2 * bp + bit) == (2 * q + d + bit * qa + e) * c + r3,
{
    assert(a * (2 * bp + bit) == 2 * (a * bp) + bit * a) by (nonlinear_arith);
    assert(bit * a == bit * qa * c + bit * ra) by (nonlinear_arith)
        requires
            a == qa * c + ra,
    ;
    assert((2 * q + d + bit * qa + e) * c == 2 * (q * c) + d * c + (bit * qa) * c + e * c)
        by (nonlinear_arith);
    assert(bit * a == (bit * qa) * c + bit * ra) by (nonlinear_arith)
        requires
            a == qa * c + ra,
    ;
}

/// A quotient whose product with `c` stays below `y` is at most `y / c`.
proof fn lemma_quotient_bound(qn: int, c: int, r: int, x: int, y: int)
    requires
        c > 0,
        0 <= r,
        qn * c + r == x,
        x <= y,
    ensures
        qn <= y / c,
{
    lemma_fundamental_div_mod(y, c);
    lemma_mod_bound(y, c);
    let m = y / c;
    assert(qn <= m) by (nonlinear_arith)
        requires
            c > 0,
            qn * c <= y,
            y == c * m + y % c,
            y % c < c,
    ;
}

/// Quotient and remainder of `a * b` divided by `c`, or `None` when the
/// quotient does not fit in 128 bits.
fn mul_div(a: u128, b: u128, c: u128) -> (r: Option<(u128, u128)>)
    requires
        c > 0,
    ensures
        r matches Some((q, rem)) ==> a * b == q * c + rem && rem < c,
        r is None ==> mul_div_down(a as int, b as int, c as int) > u128::MAX,
{
    let qa = a / c;
    let ra = a % c;
    proof {
        lemma_fundamental_div_mod(a as int, c as int);
        assert(c * qa == qa * c) by (nonlinear_arith);
    }
    let mut q: u128 = 0;
    let mut r: u128 = 0;
    let mut bp: u128 = 0;
    let mut i: u128 = 128;
    while i > 0
        invariant
            i <= 128,
            c > 0,
            a == qa * c + ra,
            ra < c,
            r < c,
            i == 128 ==> bp == 0,
            i < 128 ==> bp == b >> i,
            a * bp == q * c + r,
        decreases i,
    {
        i = i - 1;
        let nb = b >> i;
        let bit = nb & 1;
        proof {
            assert(nb == 2 * (nb >> 1u128) + (nb & 1)) by (bit_vector);
            assert(nb & 1 <= 1) by (bit_vector);
            assert(nb <= b) by (bit_vector)
                requires
                    nb == b >> i,
            ;
            if i == 127 {
                assert((b >> 127u128) >> 1u128 == 0) by (bit_vector);
            } else {
                assert((b >> i) >> 1u128 == b >> (i + 1)) by (bit_vector)
                    requires
                        i < 127,
                ;
            }
            assert(nb >> 1u128 == bp);
        }
        let (r2, d) = add_mod(r, r, c);
        let (r3, e) = if bit == 1 {
            add_mod(r2, ra, c)
        } else {
            (r2, 0)
        };
        let extra: u128 = if bit == 1 {
            qa
        } else {
            0
        };
        let ghost qn = 2 * q + d + extra + e;
        proof {
            lemma_step(a as int, bp as int, bit as int, q as int, r as int, qa as int, ra as int, c as int, d as int, r2 as int, e as int, r3 as int);
            assert(bit * qa == extra);
            assert(a * nb <= a * b) by (nonlinear_arith)
                requires
                    nb <= b,
            ;
            lemma_quotient_bound(qn, c as int, r3 as int, a * nb, a * b);
        }
        if q > u128::MAX / 2 || extra > u128::MAX - 2 * q {
            return None;
        }
        let partial = 2 * q + extra;
        if d + e > u128::MAX - partial {
            return None;
        }
        q = partial + d + e;
        r = r3;
        bp = nb;
    }
    proof {
        assert(b >> 0u128 == b) by (bit_vector);
    }
    Some((q, r))
}

/// `a * b / c` rounded down, computed without intermediate overflow;
/// `None` when the result does not fit in 128 bits.
pub fn mul_div_floor(a: u128, b: u128, c: u128) -> (r: Option<u128>)
    requires
        c > 0,
    ensures
        r matches Some(v) ==> v == mul_div_down(a as int, b as int, c as int),
        r is None <==> mul_div_down(a as int, b as int, c as int) > u128::MAX,
{
    match mul_div(a, b, c) {
        Some((q, rem)) => {
            proof {
                lemma_fundamental_div_mod_converse(a * b, c as int, q as int, rem as int);
            }
            Some(q)
        },
        None => None,
    }
}

/// `a * b / c` rounded up, computed without intermediate overflow;
/// `None` when the result does not fit in 128 bits.
pub fn mul_div_ceil(a: u128, b: u128, c: u128) -> (r: Option<u128>)
    requires
        c > 0,
    ensures
        r matches Some(v) ==> v == mul_div_up(a as int, b as int, c as int),
        r is None <==> mul_div_up(a as int, b as int, c as int) > u128::MAX,
{
    proof {
        lemma_div_is_ordered(a * b, a * b + c - 1, c as int);
    }
    match mul_div(a, b, c) {
        Some((q, rem)) => {
            if rem == 0 {
                proof {
                    lemma_fundamental_div_mod_converse(a * b + c - 1, c as int, q as int, c - 1);
                }
                Some(q)
            } else {
                proof {
                    assert(a * b + c - 1 == (q + 1) * c + (rem - 1)) by (nonlinear_arith)
                        requires
                            a * b == q * c + rem,
                    ;
                    lemma_fundamental_div_mod_converse(a * b + c - 1, c as int, q + 1, rem - 1);
                }
                if q == u128::MAX {
                    None
                } else {
                    Some(q + 1)
                }
            }
        },
        None => None,
    }
}

} // verus!
