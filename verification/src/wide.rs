//! Exact `a * b / c` on 128-bit unsigned integers, without a wider type.
//!
//! The product of two 128-bit numbers does not fit a machine word, so the
//! quotient is built from the binary digits of one factor while every
//! intermediate value stays below the divisor.
use vstd::arithmetic::div_mod::lemma_fundamental_div_mod_converse;
use vstd::prelude::*;

verus! {

/// The quotient of `a * b` by `c`, rounded down, as a mathematical integer.
pub open spec fn mul_div_floor(a: int, b: int, c: int) -> int
    recommends
        c > 0,
{
    (a * b) / c
}

proof fn lemma_mul_distributes(x: int, a: int, b: int)
    ensures
        x * (a + b) == x * a + x * b,
        (a + b) * x == a * x + b * x,
{
    assert(x * (a + b) == x * a + x * b) by (nonlinear_arith);
    assert((a + b) * x == a * x + b * x) by (nonlinear_arith);
}

/// A quotient of `r * l` by `m` cannot exceed `l` when `r < m`.
proof fn lemma_quotient_below(q: int, m: int, rem: int, r: int, l: int)
    requires
        q * m + rem == r * l,
        0 <= rem,
        0 <= r < m,
        0 <= l,
    ensures
        q <= l,
{
    assert(q <= l) by (nonlinear_arith)
        requires
            q * m + rem == r * l,
            0 <= rem,
            0 <= r < m,
            0 <= l,
    {
        if q > l {
            assert(q * m >= (l + 1) * m);
            assert((l + 1) * m == l * m + m);
            assert(r * l <= m * l);
        }
    }
}

/// One more binary digit `bit` of the factor: `rest == 2 * next + bit`.
proof fn lemma_digit_step(s: int, rest: int, next: int, bit: int, p: int, low: int)
    requires
        s == rest * p + low,
        rest == 2 * next + bit,
    ensures
        s == next * (2 * p) + (low + bit * p),
{
    assert(rest * p == next * (2 * p) + bit * p) by (nonlinear_arith)
        requires
            rest == 2 * next + bit,
    ;
}

/// `r * s / m` rounded down, for `r < m`. The result is below `s`, so it
/// always fits.
fn mul_div_below(r: u128, s: u128, m: u128) -> (q: u128)
    requires
        r < m,
    ensures
        q as int == mul_div_floor(r as int, s as int, m as int),
{
    let mut rest: u128 = s;
    // r * low == qt * m + rt, for the digits `low` of `s` consumed so far
    let mut qt: u128 = 0;
    let mut rt: u128 = 0;
    // r * p == qi * m + ri, for the weight `p` of the next digit
    let mut qi: u128 = 0;
    let mut ri: u128 = r;
    let ghost mut p: int = 1;
    let ghost mut low: int = 0;
    proof {
        assert(rest as int * p + low == s as int) by (nonlinear_arith)
            requires
                rest == s,
                p == 1,
                low == 0,
        ;
        assert(r as int * low == qt as int * m as int + rt as int) by (nonlinear_arith)
            requires
                low == 0,
                qt == 0,
                rt == 0,
        ;
        assert(r as int * p == qi as int * m as int + ri as int) by (nonlinear_arith)
            requires
                p == 1,
                qi == 0,
                ri == r,
        ;
    }
    while rest > 0
        invariant
            r < m,
            p >= 1,
            0 <= low < p,
            s as int == rest as int * p + low,
            r as int * low == qt as int * m as int + rt as int,
            rt < m,
            rest > 0 ==> r as int * p == qi as int * m as int + ri as int,
            rest > 0 ==> ri < m,
        decreases rest,
    {
        let bit: u128 = rest % 2;
        let next: u128 = rest / 2;
        proof {
            lemma_digit_step(s as int, rest as int, next as int, bit as int, p, low);
            assert(rest as int * p >= p) by (nonlinear_arith)
                requires
                    rest >= 1,
                    p >= 1,
            ;
        }
        if bit == 1 {
            let ghost new_low = low + p;
            let ghost carry: int = if rt >= m - ri { 1 } else { 0 };
            let ghost new_qt: int = qt as int + qi as int + carry;
            let ghost new_rt: int = rt as int + ri as int - carry * m as int;
            proof {
                lemma_mul_distributes(r as int, low, p);
                lemma_mul_distributes(m as int, qt as int + qi as int, carry);
                lemma_mul_distributes(m as int, qt as int, qi as int);
                assert(new_qt * m as int + new_rt == r as int * new_low) by (nonlinear_arith)
                    requires
                        r as int * new_low == r as int * low + r as int * p,
                        r as int * low == qt as int * m as int + rt as int,
                        r as int * p == qi as int * m as int + ri as int,
                        new_qt == qt as int + qi as int + carry,
                        new_rt == rt as int + ri as int - carry * m as int,
                ;
                lemma_quotient_below(new_qt, m as int, new_rt, r as int, new_low);
            }
            if rt >= m - ri {
                rt = rt - (m - ri);
                qt = qt + qi + 1;
            } else {
                rt = rt + ri;
                qt = qt + qi;
            }
            proof {
                assert(bit as int * p == p) by (nonlinear_arith)
                    requires
                        bit == 1,
                ;
                low = new_low;
            }
        } else {
            proof {
                assert(bit as int * p == 0) by (nonlinear_arith)
                    requires
                        bit == 0,
                ;
            }
        }
        if next > 0 {
            let ghost carry: int = if ri >= m - ri { 1 } else { 0 };
            let ghost new_qi: int = 2 * qi as int + carry;
            let ghost new_ri: int = 2 * ri as int - carry * m as int;
            proof {
                assert(new_qi * m as int + new_ri == r as int * (2 * p)) by (nonlinear_arith)
                    requires
                        r as int * p == qi as int * m as int + ri as int,
                        new_qi == 2 * qi as int + carry,
                        new_ri == 2 * ri as int - carry * m as int,
                ;
                lemma_quotient_below(new_qi, m as int, new_ri, r as int, 2 * p);
                assert(next as int * (2 * p) >= 2 * p) by (nonlinear_arith)
                    requires
                        next >= 1,
                        p >= 1,
                ;
            }
            if ri >= m - ri {
                ri = ri - (m - ri);
                qi = qi + qi + 1;
            } else {
                ri = ri + ri;
                qi = qi + qi;
            }
        }
        proof {
            p = 2 * p;
        }
        rest = next;
    }
    proof {
        assert(rest as int * p == 0) by (nonlinear_arith)
            requires
                rest == 0,
        ;
        assert(r as int * s as int == qt as int * m as int + rt as int);
        lemma_fundamental_div_mod_converse(
            r as int * s as int,
            m as int,
            qt as int,
            rt as int,
        );
    }
    qt
}

/// `a * b / c` rounded down, or `None` when the quotient does not fit in
/// 128 bits.
pub fn mul_div(a: u128, b: u128, c: u128) -> (q: Option<u128>)
    requires
        c > 0,
    ensures
        match q {
            Some(v) => v as int == mul_div_floor(a as int, b as int, c as int),
            None => mul_div_floor(a as int, b as int, c as int) > u128::MAX,
        },
{
    let whole: u128 = a / c;
    let part: u128 = a % c;
    let low: u128 = mul_div_below(part, b, c);
    proof {
        vstd::arithmetic::div_mod::lemma_fundamental_div_mod(a as int, c as int);
        assert(c as int * whole as int == whole as int * c as int) by (nonlinear_arith);
        assert(a as int * b as int == (whole as int * b as int) * c as int + part as int
            * b as int) by (nonlinear_arith)
            requires
                a as int == whole as int * c as int + part as int,
        ;
        let rem = (part as int * b as int) % (c as int);
        vstd::arithmetic::div_mod::lemma_fundamental_div_mod(part as int * b as int, c as int);
        vstd::arithmetic::div_mod::lemma_mod_bound(part as int * b as int, c as int);
        assert(part as int * b as int == c as int * low as int + rem);
        assert(a as int * b as int == (whole as int * b as int + low as int) * c as int + rem)
            by (nonlinear_arith)
            requires
                a as int * b as int == (whole as int * b as int) * c as int + part as int
                    * b as int,
                part as int * b as int == c as int * low as int + rem,
        ;
        lemma_fundamental_div_mod_converse(
            a as int * b as int,
            c as int,
            whole as int * b as int + low as int,
            rem,
        );
    }
    match whole.checked_mul(b) {
        None => None,
        Some(high) => high.checked_add(low),
    }
}

} // verus!
