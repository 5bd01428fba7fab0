//! Laws of exact rationals in lowest terms: a fraction in lowest terms is
//! the only one of its value, so arithmetic that gives back a value gives
//! back the very fraction.

use vstd::prelude::*;

use super::pattern_ir::{
    span_reverse_ok, span_shift_ok, spec_span_end, spec_span_reverse, spec_span_shift, CycleDuration, CycleSpan, CycleTime,
};
use super::rational::{add_ok, lowest_terms, rat_lt, spec_add, spec_integer, spec_make, spec_sub, sub_ok, Rational};
use crate::types::{reduce_divisor, reduced_denominator, reduced_numerator, spec_abs, spec_gcd};

verus! {

/// The gcd is a combination of its arguments (Bezout).
proof fn lemma_bezout(a: nat, b: nat) -> (st: (int, int))
    ensures
        st.0 * a + st.1 * b == spec_gcd(a, b),
    decreases b,
{
    if b == 0 {
        (1, 0)
    } else {
        let (s, t) = lemma_bezout(b, a % b);
        let q = (a / b) as int;
        let r = (a % b) as int;
        assert(a == b * q + r) by (nonlinear_arith)
            requires
                b > 0,
                q == a / b,
                r == a % b,
        ;
        assert(t * a + (s - t * q) * b == s * b + t * r) by (nonlinear_arith)
            requires
                a == b * q + r,
        ;
        (t, s - t * q)
    }
}

/// The gcd divides both arguments.
proof fn lemma_gcd_divides(a: nat, b: nat)
    ensures
        spec_gcd(a, b) > 0 ==> a % spec_gcd(a, b) == 0 && b % spec_gcd(a, b) == 0,
        spec_gcd(a, b) == 0 <==> a == 0 && b == 0,
    decreases b,
{
    if b > 0 {
        lemma_gcd_divides(b, a % b);
        let g: int = spec_gcd(b, a % b) as int;
        let aa: int = a as int;
        let bb: int = b as int;
        let q: int = (a / b) as int;
        let r: int = (a % b) as int;
        assert(aa == bb * q + r) by (nonlinear_arith)
            requires
                bb > 0,
                q == aa / bb,
                r == aa % bb,
        ;
        if g > 0 {
            let kb: int = bb / g;
            let kr: int = r / g;
            assert(bb == g * kb) by (nonlinear_arith)
                requires
                    g > 0,
                    bb % g == 0,
                    kb == bb / g,
            ;
            assert(r == g * kr) by (nonlinear_arith)
                requires
                    g > 0,
                    r % g == 0,
                    kr == r / g,
            ;
            assert(aa == g * (kb * q + kr)) by (nonlinear_arith)
                requires
                    aa == bb * q + r,
                    bb == g * kb,
                    r == g * kr,
            ;
            assert(aa % g == 0) by (nonlinear_arith)
                requires
                    aa == g * (kb * q + kr),
                    g > 0,
            ;
        } else {
            assert(b == 0);
        }
    }
}

/// If `b` divides `a * e` and shares no factor with `a`, it divides `e`.
proof fn lemma_euclid(a: int, b: int, e: int)
    requires
        b > 0,
        spec_gcd(spec_abs(a), b as nat) == 1,
        (a * e) % b == 0,
    ensures
        e % b == 0,
{
    let (s, t) = lemma_bezout(spec_abs(a), b as nat);
    let aa = spec_abs(a) as int;
    let k = (a * e) / b;
    assert(a * e == b * k) by (nonlinear_arith)
        requires
            b > 0,
            (a * e) % b == 0,
            k == (a * e) / b,
    ;
    let sa: int = if a < 0 {
        -s
    } else {
        s
    };
    assert(sa * a == s * aa) by (nonlinear_arith)
        requires
            sa == (if a < 0 {
                -s
            } else {
                s
            }),
            aa == (if a < 0 {
                -a
            } else {
                a
            }),
    ;
    assert(e == sa * (a * e) + t * b * e) by (nonlinear_arith)
        requires
            sa * a + t * b == 1,
    ;
    assert(e == b * (sa * k + t * e)) by (nonlinear_arith)
        requires
            e == sa * (a * e) + t * b * e,
            a * e == b * k,
    ;
    assert(e % b == 0) by (nonlinear_arith)
        requires
            e == b * (sa * k + t * e),
            b > 0,
    ;
}

/// Two fractions in lowest terms with the same value (equal cross
/// products) are the same fraction.
pub proof fn lemma_lowest_terms_unique(x: Rational, y: Rational)
    requires
        lowest_terms(x),
        lowest_terms(y),
        x.numerator * y.denominator == y.numerator * x.denominator,
    ensures
        x == y,
{
    let a = x.numerator as int;
    let b = x.denominator as int;
    let c = y.numerator as int;
    let e = y.denominator as int;
    assert((a * e) % b == 0) by (nonlinear_arith)
        requires
            a * e == c * b,
            b > 0,
    ;
    lemma_euclid(a, b, e);
    assert((c * b) % e == 0) by (nonlinear_arith)
        requires
            a * e == c * b,
            e > 0,
    ;
    lemma_euclid(c, e, b);
    assert(b == e) by (nonlinear_arith)
        requires
            e % b == 0,
            b % e == 0,
            b > 0,
            e > 0,
    ;
    assert(a == c) by (nonlinear_arith)
        requires
            a * e == c * b,
            b == e,
            b > 0,
    ;
}

/// Reducing `n/d` gives a fraction in lowest terms of the same value.
pub proof fn lemma_make_value(n: int, d: int)
    requires
        super::rational::new_ok(n, d),
    ensures
        lowest_terms(spec_make(n, d)),
        spec_make(n, d).numerator * d == n * spec_make(n, d).denominator,
{
    let an = spec_abs(n);
    let ad = spec_abs(d);
    lemma_gcd_divides(an, ad);
    let g: int = reduce_divisor(n, d) as int;
    assert(g == spec_gcd(an, ad) as int);
    assert(g > 0);
    let a: int = an as int / g;
    let b: int = ad as int / g;
    assert(an == g * a) by (nonlinear_arith)
        requires
            g > 0,
            (an as int) % g == 0,
            a == an as int / g,
    ;
    assert(ad == g * b) by (nonlinear_arith)
        requires
            g > 0,
            (ad as int) % g == 0,
            b == ad as int / g,
    ;
    assert(0 <= a <= an) by (nonlinear_arith)
        requires
            an == g * a,
            g > 0,
            an >= 0,
    ;
    assert(0 < b <= ad) by (nonlinear_arith)
        requires
            ad == g * b,
            g > 0,
            ad > 0,
    ;
    let num: int = reduced_numerator(n, d);
    let den: int = reduced_denominator(n, d);
    assert(den == b);
    assert(num == a || num == -a);
    assert(spec_make(n, d).numerator as int == num);
    assert(spec_make(n, d).denominator as int == den);
    // The value.
    assert(num * d == n * den) by (nonlinear_arith)
        requires
            an == g * a,
            ad == g * b,
            den == b,
            num == (if (n < 0) != (d < 0) {
                -a
            } else {
                a
            }),
            an == (if n < 0 {
                -n
            } else {
                n
            }),
            ad == (if d < 0 {
                -d
            } else {
                d
            }),
    ;
    // Lowest terms.
    let (s, t) = lemma_bezout(an, ad);
    assert(s * a + t * b == 1) by (nonlinear_arith)
        requires
            s * an + t * ad == g,
            an == g * a,
            ad == g * b,
            g > 0,
    ;
    let sa: nat = spec_abs(num);
    assert(sa == a);
    lemma_gcd_divides(sa, b as nat);
    let h: int = spec_gcd(sa, b as nat) as int;
    assert(h > 0);
    let ka: int = a / h;
    let kb: int = b / h;
    assert(a == h * ka) by (nonlinear_arith)
        requires
            h > 0,
            a % h == 0,
            ka == a / h,
    ;
    assert(b == h * kb) by (nonlinear_arith)
        requires
            h > 0,
            b % h == 0,
            kb == b / h,
    ;
    assert(h * (s * ka + t * kb) == 1) by (nonlinear_arith)
        requires
            s * a + t * b == 1,
            a == h * ka,
            b == h * kb,
    ;
    assert(h == 1) by (nonlinear_arith)
        requires
            h * (s * ka + t * kb) == 1,
            h > 0,
    ;
}

/// Zero is `0/1`.
proof fn lemma_zero_parts()
    ensures
        spec_integer(0).numerator == 0,
        spec_integer(0).denominator == 1,
{
    assert((0int as i64) == 0i64) by (bit_vector);
}

proof fn lemma_distribute(p: int, q: int, w: int)
    ensures
        (p + q) * w == p * w + q * w,
{
    assert((p + q) * w == p * w + q * w) by (nonlinear_arith);
}

proof fn lemma_swap_factor(a: int, b: int, w: int)
    ensures
        (a * b) * w == (a * w) * b,
{
    assert((a * b) * w == (a * w) * b) by (nonlinear_arith);
}

proof fn lemma_swap_pair(n: int, m: int, a: int, o: int)
    ensures
        (n * m) * (a * o) == (n * o) * (m * a),
{
    assert((n * m) * (a * o) == (n * o) * (m * a)) by (nonlinear_arith);
}

proof fn lemma_expand(an: int, od: int, on: int, ad: int, md: int, nd: int)
    ensures
        ((an * od + on * ad) * md) * nd + ((-on) * nd) * (md * ad) == an * od * (md * nd),
{
    assert(((an * od + on * ad) * md) * nd == an * od * (md * nd) + on * ad * md * nd) by (nonlinear_arith);
    assert(((-on) * nd) * (md * ad) == -(on * ad * md * nd)) by (nonlinear_arith);
}

/// From `s * (a * o) == n * o * t` with `o != 0`: `s * a == n * t`.
proof fn lemma_regroup(s: int, a: int, o: int, n: int, t: int)
    requires
        s * (a * o) == n * o * t,
        o != 0,
    ensures
        s * a == n * t,
{
    assert((s * a) * o == (n * t) * o) by (nonlinear_arith)
        requires
            s * (a * o) == n * o * t,
    ;
    assert(s * a == n * t) by (nonlinear_arith)
        requires
            (s * a) * o == (n * t) * o,
            o != 0,
    ;
}

/// From `r * t == s * d` and `s * a == n * t` with `t > 0`: `r * a == n * d`.
proof fn lemma_cross_finish(r: int, t: int, s: int, d: int, a: int, n: int)
    requires
        r * t == s * d,
        s * a == n * t,
        t > 0,
    ensures
        r * a == n * d,
{
    assert((r * a) * t == (n * d) * t) by (nonlinear_arith)
        requires
            r * t == s * d,
            s * a == n * t,
    ;
    assert(r * a == n * d) by (nonlinear_arith)
        requires
            (r * a) * t == (n * d) * t,
            t > 0,
    ;
}

/// `(a + o) + (0 - o) == a` for `a` in lowest terms and any `o`, where
/// every step stays in range.
pub proof fn lemma_add_then_subtract(a: Rational, o: Rational)
    requires
        lowest_terms(a),
        add_ok(a, o),
        sub_ok(spec_integer(0), o),
        add_ok(spec_add(a, o), spec_sub(spec_integer(0), o)),
    ensures
        spec_add(spec_add(a, o), spec_sub(spec_integer(0), o)) == a,
{
    lemma_zero_parts();
    let z = spec_integer(0);
    let m = spec_add(a, o);
    let neg = spec_sub(z, o);
    let r = spec_add(m, neg);
    lemma_make_value(a.numerator * o.denominator + o.numerator * a.denominator, a.denominator * o.denominator);
    lemma_make_value(z.numerator * o.denominator - o.numerator * z.denominator, z.denominator * o.denominator);
    lemma_make_value(m.numerator * neg.denominator + neg.numerator * m.denominator, m.denominator * neg.denominator);
    let an = a.numerator as int;
    let ad = a.denominator as int;
    let on = o.numerator as int;
    let od = o.denominator as int;
    let mn = m.numerator as int;
    let md = m.denominator as int;
    let nn = neg.numerator as int;
    let nd = neg.denominator as int;
    let rn = r.numerator as int;
    let rd = r.denominator as int;
    assert(z.numerator * o.denominator - o.numerator * z.denominator == -on);
    assert(z.denominator * o.denominator == od);
    assert(mn * (ad * od) == (an * od + on * ad) * md);
    assert(nn * od == (-on) * nd);
    assert(rn * (md * nd) == (mn * nd + nn * md) * rd);
    assert(od != 0) by {
        if od == 0 {
            assert(a.denominator * o.denominator == 0);
        }
    }
    assert(ad > 0 && md > 0 && nd > 0 && rd > 0);
    let t = md * nd;
    let sum = mn * nd + nn * md;
    let w = ad * od;
    lemma_distribute(mn * nd, nn * md, w);
    lemma_swap_factor(mn, nd, w);
    lemma_swap_pair(nn, md, ad, od);
    assert((mn * w) * nd == ((an * od + on * ad) * md) * nd);
    assert((nn * od) * (md * ad) == ((-on) * nd) * (md * ad));
    lemma_expand(an, od, on, ad, md, nd);
    assert(sum * w == an * od * t);
    lemma_regroup(sum, ad, od, an, t);
    assert(sum * ad == an * t);
    lemma_cross_finish(rn, t, sum, rd, ad, an);
    assert(rn * ad == an * rd);
    lemma_lowest_terms_unique(r, a);
}

/// Shifting a span later by `offset` and then back by minus `offset` gives
/// the span back, when its start is in lowest terms (as every constructed
/// rational is) and every step stays in range.
pub proof fn lemma_shift_round_trip(s: CycleSpan, offset: CycleDuration)
    requires
        lowest_terms(s.start.0),
        span_shift_ok(s, offset),
        sub_ok(spec_integer(0), offset.0),
        span_shift_ok(spec_span_shift(s, offset), CycleDuration(spec_sub(spec_integer(0), offset.0))),
    ensures
        spec_span_shift(s, offset).duration == s.duration,
        spec_span_shift(spec_span_shift(s, offset), CycleDuration(spec_sub(spec_integer(0), offset.0))) == s,
{
    lemma_add_then_subtract(s.start.0, offset.0);
}


// Values over a common denominator
// ---------------------------------------------------------------------------

/// `x` has the value `n / m`.
pub open spec fn has_value(x: Rational, n: int, m: int) -> bool {
    x.numerator * m == n * x.denominator
}

proof fn lemma_spread(m: int, a: int, b: int, r: int)
    ensures
        m * ((a + b) * r) == m * (a * r) + m * (b * r),
{
    assert(m * ((a + b) * r) == m * (a * r) + m * (b * r)) by (nonlinear_arith);
}

proof fn lemma_rearrange(m: int, x: int, y: int, r: int)
    ensures
        m * ((x * y) * r) == r * ((x * m) * y),
{
    assert(m * ((x * y) * r) == r * ((x * m) * y)) by (nonlinear_arith);
}

/// `x - y` (when `minus`) or `x + y` has the value of the difference or sum
/// of their values over the same denominator.
pub(crate) proof fn lemma_combine_value(x: Rational, y: Rational, m: int, nx: int, ny: int, minus: bool)
    requires
        m != 0,
        has_value(x, nx, m),
        has_value(y, ny, m),
        minus ==> sub_ok(x, y),
        !minus ==> add_ok(x, y),
    ensures
        minus ==> has_value(spec_sub(x, y), nx - ny, m) && lowest_terms(spec_sub(x, y)),
        !minus ==> has_value(spec_add(x, y), nx + ny, m) && lowest_terms(spec_add(x, y)),
{
    let xn = x.numerator as int;
    let xd = x.denominator as int;
    let yn = y.numerator as int;
    let yd = y.denominator as int;
    let sy: int = if minus { -yn } else { yn };
    let sny: int = if minus { -ny } else { ny };
    let num = xn * yd + sy * xd;
    assert(sy * xd == if minus { -(yn * xd) } else { yn * xd }) by (nonlinear_arith)
        requires
            sy == if minus { -yn } else { yn },
    ;
    let r = if minus { spec_sub(x, y) } else { spec_add(x, y) };
    lemma_make_value(num, xd * yd);
    assert(r == spec_make(num, xd * yd));
    let rn = r.numerator as int;
    let rd = r.denominator as int;
    assert(rn * (xd * yd) == num * rd);
    assert(sy * m == sny * yd) by (nonlinear_arith)
        requires
            yn * m == ny * yd,
            sy == if minus { -yn } else { yn },
            sny == if minus { -ny } else { ny },
    ;
    assert((rn * m) * (xd * yd) == m * (rn * (xd * yd))) by (nonlinear_arith);
    lemma_spread(m, xn * yd, sy * xd, rd);
    lemma_rearrange(m, xn, yd, rd);
    lemma_rearrange(m, sy, xd, rd);
    assert(m * ((xn * yd + sy * xd) * rd) == rd * ((xn * m) * yd) + rd * ((sy * m) * xd));
    assert(rd * ((xn * m) * yd) + rd * ((sy * m) * xd) == rd * ((xn * m) * yd + (sy * m) * xd)) by (nonlinear_arith);
    assert(rd * ((nx * xd) * yd + (sny * yd) * xd) == ((nx + sny) * rd) * (xd * yd)) by (nonlinear_arith);
    assert((rn * m) * (xd * yd) == ((nx + sny) * rd) * (xd * yd));
    assert(xd * yd != 0);
    assert(rn * m == (nx + sny) * rd) by (nonlinear_arith)
        requires
            (rn * m) * (xd * yd) == ((nx + sny) * rd) * (xd * yd),
            xd * yd != 0,
    ;
}

/// Two fractions in lowest terms with the same value over one denominator
/// are the same fraction.
pub(crate) proof fn lemma_same_value(x: Rational, y: Rational, m: int, n: int)
    requires
        m != 0,
        lowest_terms(x),
        lowest_terms(y),
        has_value(x, n, m),
        has_value(y, n, m),
    ensures
        x == y,
{
    let xn = x.numerator as int;
    let xd = x.denominator as int;
    let yn = y.numerator as int;
    let yd = y.denominator as int;
    assert((xn * yd) * m == (yn * xd) * m) by (nonlinear_arith)
        requires
            xn * m == n * xd,
            yn * m == n * yd,
    ;
    assert(xn * yd == yn * xd) by (nonlinear_arith)
        requires
            (xn * yd) * m == (yn * xd) * m,
            m != 0,
    ;
    lemma_lowest_terms_unique(x, y);
}

/// Mirroring a span inside `[origin, end]` twice gives the span back, and
/// mirroring keeps its duration, when its start is in lowest terms (as
/// every constructed rational is) and every step stays in range.
pub proof fn lemma_reverse_round_trip(s: CycleSpan, origin: CycleTime, end: CycleTime)
    requires
        lowest_terms(s.start.0),
        span_reverse_ok(s, origin, end),
        span_reverse_ok(spec_span_reverse(s, origin, end), origin, end),
    ensures
        spec_span_reverse(s, origin, end).duration == s.duration,
        spec_span_reverse(spec_span_reverse(s, origin, end), origin, end) == s,
{
    let a = s.start.0;
    let d = s.duration.0;
    let o = origin.0;
    let e = end.0;
    let ad = a.denominator as int;
    let dd = d.denominator as int;
    let od = o.denominator as int;
    let ed = e.denominator as int;
    assert(ad != 0 && dd != 0) by {
        assert(a.denominator * d.denominator != 0);
    }
    let p = spec_span_end(s).0;
    assert(od != 0) by {
        assert(p.denominator * o.denominator != 0);
    }
    let q = spec_sub(p, o);
    assert(ed != 0) by {
        assert(e.denominator * q.denominator != 0);
    }
    let m = ad * dd * od * ed;
    assert(m != 0) by (nonlinear_arith)
        requires
            ad != 0,
            dd != 0,
            od != 0,
            ed != 0,
            m == ad * dd * od * ed,
    ;
    let na = a.numerator * (dd * od * ed);
    let nd = d.numerator * (ad * od * ed);
    let no = o.numerator * (ad * dd * ed);
    let ne = e.numerator * (ad * dd * od);
    assert(has_value(a, na, m)) by (nonlinear_arith)
        requires
            m == ad * dd * od * ed,
            na == a.numerator * (dd * od * ed),
            ad == a.denominator,
    ;
    assert(has_value(d, nd, m)) by (nonlinear_arith)
        requires
            m == ad * dd * od * ed,
            nd == d.numerator * (ad * od * ed),
            dd == d.denominator,
    ;
    assert(has_value(o, no, m)) by (nonlinear_arith)
        requires
            m == ad * dd * od * ed,
            no == o.numerator * (ad * dd * ed),
            od == o.denominator,
    ;
    assert(has_value(e, ne, m)) by (nonlinear_arith)
        requires
            m == ad * dd * od * ed,
            ne == e.numerator * (ad * dd * od),
            ed == e.denominator,
    ;
    lemma_combine_value(a, d, m, na, nd, false);
    lemma_combine_value(p, o, m, na + nd, no, true);
    lemma_combine_value(e, q, m, ne, na + nd - no, true);
    let s1 = spec_span_reverse(s, origin, end);
    let n1 = ne - (na + nd - no);
    let p2 = spec_span_end(s1).0;
    lemma_combine_value(s1.start.0, d, m, n1, nd, false);
    lemma_combine_value(p2, o, m, n1 + nd, no, true);
    let q2 = spec_sub(p2, o);
    lemma_combine_value(e, q2, m, ne, n1 + nd - no, true);
    let s2 = spec_span_reverse(s1, origin, end);
    assert(ne - (n1 + nd - no) == na);
    lemma_same_value(s2.start.0, a, m, na);
}


/// `x` has the value `(x.numerator * rest) / (rest * x.denominator)`.
pub(crate) proof fn lemma_value_in(x: Rational, rest: int)
    ensures
        has_value(x, x.numerator * rest, rest * x.denominator),
{
    assert(x.numerator * (rest * x.denominator) == (x.numerator * rest) * x.denominator) by (nonlinear_arith);
}

/// A value keeps when numerator and denominator are both multiplied by `k`.
pub(crate) proof fn lemma_scale_value(x: Rational, n: int, m: int, k: int)
    requires
        has_value(x, n, m),
    ensures
        has_value(x, n * k, m * k),
{
    assert(x.numerator * (m * k) == (n * k) * x.denominator) by (nonlinear_arith)
        requires
            x.numerator * m == n * x.denominator,
    ;
}

/// Over one denominator, fractions with positive denominators are ordered
/// as their numerators are (reversed when the common denominator is
/// negative).
pub(crate) proof fn lemma_order_by_value(x: Rational, y: Rational, m: int, nx: int, ny: int)
    requires
        m != 0,
        x.denominator > 0,
        y.denominator > 0,
        has_value(x, nx, m),
        has_value(y, ny, m),
    ensures
        m > 0 ==> rat_lt(x, y) == (nx < ny),
        m < 0 ==> rat_lt(x, y) == (ny < nx),
{
    let xn = x.numerator as int;
    let xd = x.denominator as int;
    let yn = y.numerator as int;
    let yd = y.denominator as int;
    let pd = xd * yd;
    assert(pd > 0) by (nonlinear_arith)
        requires
            xd > 0,
            yd > 0,
            pd == xd * yd,
    ;
    assert((xn * yd) * m == nx * pd) by (nonlinear_arith)
        requires
            xn * m == nx * xd,
            pd == xd * yd,
    ;
    assert((yn * xd) * m == ny * pd) by (nonlinear_arith)
        requires
            yn * m == ny * yd,
            pd == xd * yd,
    ;
    assert(m > 0 ==> ((xn * yd < yn * xd) == ((xn * yd) * m < (yn * xd) * m))) by (nonlinear_arith);
    assert(m < 0 ==> ((xn * yd < yn * xd) == ((yn * xd) * m < (xn * yd) * m))) by (nonlinear_arith);
    assert((nx * pd < ny * pd) == (nx < ny)) by (nonlinear_arith)
        requires
            pd > 0,
    ;
    assert((ny * pd < nx * pd) == (ny < nx)) by (nonlinear_arith)
        requires
            pd > 0,
    ;
}


/// `x * y` has the product of their values over the product of the
/// denominators.
pub(crate) proof fn lemma_mul_value(x: Rational, y: Rational, mx: int, nx: int, my: int, ny: int)
    requires
        mx != 0,
        my != 0,
        has_value(x, nx, mx),
        has_value(y, ny, my),
        super::rational::mul_ok(x, y),
    ensures
        has_value(super::rational::spec_mul(x, y), nx * ny, mx * my),
        lowest_terms(super::rational::spec_mul(x, y)),
{
    let xn = x.numerator as int;
    let xd = x.denominator as int;
    let yn = y.numerator as int;
    let yd = y.denominator as int;
    let r = super::rational::spec_mul(x, y);
    lemma_make_value(xn * yn, xd * yd);
    let rn = r.numerator as int;
    let rd = r.denominator as int;
    assert(rn * (xd * yd) == (xn * yn) * rd);
    assert((rn * (mx * my)) * (xd * yd) == (rn * (xd * yd)) * (mx * my)) by (nonlinear_arith);
    assert(((xn * yn) * rd) * (mx * my) == rd * ((xn * mx) * (yn * my))) by (nonlinear_arith);
    assert(rd * ((nx * xd) * (ny * yd)) == ((nx * ny) * rd) * (xd * yd)) by (nonlinear_arith);
    assert((rn * (mx * my)) * (xd * yd) == ((nx * ny) * rd) * (xd * yd));
    assert(xd * yd != 0);
    assert(rn * (mx * my) == (nx * ny) * rd) by (nonlinear_arith)
        requires
            (rn * (mx * my)) * (xd * yd) == ((nx * ny) * rd) * (xd * yd),
            xd * yd != 0,
    ;
}

} // verus!
