//! Laws of pattern streams: reversing a stream keeps its bounds, and
//! reversing it twice gives it back; playing it faster keeps its earliest
//! start, and playing that slower by the same factor gives it back.

use vstd::prelude::*;

use super::pattern_ir::{
    bounds_upto, fast_ok, spec_chain, spec_duration, spec_normalize, spec_shift_events, rat_positive, reverse_ok, scale_ok, spec_bounds, spec_fast, spec_reverse_events,
    spec_scale_events, spec_span_end, spec_span_reverse, spec_span_scale, span_end_ok, span_reverse_ok,
    span_scale_ok, with_span, CycleSpan, CycleTime, PatternEventView,
};
use super::rational::{lowest_terms, rat_lt, spec_add, spec_div, spec_integer, spec_mul, spec_sub, Rational};
use super::rational_laws::{
    has_value, lemma_combine_value, lemma_make_value, lemma_mul_value, lemma_order_by_value, lemma_reverse_round_trip,
    lemma_same_value, lemma_scale_value, lemma_value_in,
};

verus! {

/// The start of the `i`-th event.
pub open spec fn start_of(evs: Seq<PatternEventView>, i: int) -> Rational {
    evs[i].span.start.0
}

/// The end of the `i`-th event.
pub open spec fn end_of(evs: Seq<PatternEventView>, i: int) -> Rational {
    spec_span_end(evs[i].span).0
}

/// Which events give the running earliest start and latest end over the
/// first `k` events, as `bounds_upto` picks them.
pub open spec fn bound_indices(evs: Seq<PatternEventView>, k: int) -> (int, int)
    decreases k,
{
    if k <= 0 {
        (0, 0)
    } else {
        let prev = bound_indices(evs, k - 1);
        (if rat_lt(start_of(evs, k - 1), start_of(evs, prev.0)) {
            k - 1
        } else {
            prev.0
        }, if rat_lt(end_of(evs, prev.1), end_of(evs, k - 1)) {
            k - 1
        } else {
            prev.1
        })
    }
}

/// Every event starts at a fraction in lowest terms.
pub open spec fn starts_lowest(evs: Seq<PatternEventView>) -> bool {
    forall|i: int| 0 <= i < evs.len() ==> lowest_terms(#[trigger] evs[i].span.start.0)
}

proof fn lemma_bound_indices(evs: Seq<PatternEventView>, k: int)
    requires
        evs.len() > 0,
        0 <= k <= evs.len(),
    ensures
        0 <= bound_indices(evs, k).0 < evs.len(),
        0 <= bound_indices(evs, k).1 < evs.len(),
        bounds_upto(evs, k) == (start_of(evs, bound_indices(evs, k).0), end_of(evs, bound_indices(evs, k).1)),
    decreases k,
{
    if k > 0 {
        lemma_bound_indices(evs, k - 1);
    }
}

/// The end of an event is in lowest terms.
proof fn lemma_end_lowest(evs: Seq<PatternEventView>, i: int)
    requires
        0 <= i < evs.len(),
        super::pattern_ir::span_end_ok(evs[i].span),
    ensures
        lowest_terms(end_of(evs, i)),
{
    let s = start_of(evs, i);
    let d = evs[i].span.duration.0;
    lemma_make_value(s.numerator * d.denominator + d.numerator * s.denominator, s.denominator * d.denominator);
}

/// Mirrored starts are ordered as the ends they come from, reversed.
#[verifier::spinoff_prover]
proof fn lemma_mirrored_starts(evs: Seq<PatternEventView>, o: Rational, e: Rational, i: int, j: int)
    requires
        0 <= i < evs.len(),
        0 <= j < evs.len(),
        lowest_terms(o),
        lowest_terms(e),
        span_reverse_ok(evs[i].span, CycleTime(o), CycleTime(e)),
        span_reverse_ok(evs[j].span, CycleTime(o), CycleTime(e)),
    ensures
        rat_lt(
            spec_span_reverse(evs[i].span, CycleTime(o), CycleTime(e)).start.0,
            spec_span_reverse(evs[j].span, CycleTime(o), CycleTime(e)).start.0,
        ) == rat_lt(end_of(evs, j), end_of(evs, i)),
{
    let ei = end_of(evs, i);
    let ej = end_of(evs, j);
    lemma_end_lowest(evs, i);
    lemma_end_lowest(evs, j);
    let ed = e.denominator as int;
    let od = o.denominator as int;
    let eid = ei.denominator as int;
    let ejd = ej.denominator as int;
    let m = ((ed * od) * eid) * ejd;
    assert(m > 0) by (nonlinear_arith)
        requires
            ed > 0,
            od > 0,
            eid > 0,
            ejd > 0,
            m == ((ed * od) * eid) * ejd,
    ;
    assert(has_value(e, e.numerator as int, ed));
    lemma_scale_value(e, e.numerator as int, ed, od);
    lemma_scale_value(e, e.numerator * od, ed * od, eid);
    lemma_scale_value(e, e.numerator * od * eid, (ed * od) * eid, ejd);
    let ne = e.numerator * od * eid * ejd;
    lemma_value_in(o, ed);
    lemma_scale_value(o, o.numerator * ed, ed * od, eid);
    lemma_scale_value(o, o.numerator * ed * eid, (ed * od) * eid, ejd);
    let no = o.numerator * ed * eid * ejd;
    lemma_value_in(ei, ed * od);
    lemma_scale_value(ei, ei.numerator * (ed * od), (ed * od) * eid, ejd);
    let ni = ei.numerator * (ed * od) * ejd;
    lemma_value_in(ej, (ed * od) * eid);
    let nj = ej.numerator * ((ed * od) * eid);
    lemma_combine_value(ei, o, m, ni, no, true);
    lemma_combine_value(e, spec_sub(ei, o), m, ne, ni - no, true);
    lemma_combine_value(ej, o, m, nj, no, true);
    lemma_combine_value(e, spec_sub(ej, o), m, ne, nj - no, true);
    let ri = spec_sub(e, spec_sub(ei, o));
    let rj = spec_sub(e, spec_sub(ej, o));
    lemma_order_by_value(ri, rj, m, ne - (ni - no), ne - (nj - no));
    lemma_order_by_value(ej, ei, m, nj, ni);
}

/// Mirrored ends are ordered as the starts they come from, reversed.
#[verifier::spinoff_prover]
proof fn lemma_mirrored_ends(evs: Seq<PatternEventView>, o: Rational, e: Rational, i: int, j: int)
    requires
        0 <= i < evs.len(),
        0 <= j < evs.len(),
        lowest_terms(o),
        lowest_terms(e),
        lowest_terms(start_of(evs, i)),
        lowest_terms(start_of(evs, j)),
        span_reverse_ok(evs[i].span, CycleTime(o), CycleTime(e)),
        span_reverse_ok(evs[j].span, CycleTime(o), CycleTime(e)),
        super::pattern_ir::span_end_ok(spec_span_reverse(evs[i].span, CycleTime(o), CycleTime(e))),
        super::pattern_ir::span_end_ok(spec_span_reverse(evs[j].span, CycleTime(o), CycleTime(e))),
    ensures
        rat_lt(
            spec_span_end(spec_span_reverse(evs[i].span, CycleTime(o), CycleTime(e))).0,
            spec_span_end(spec_span_reverse(evs[j].span, CycleTime(o), CycleTime(e))).0,
        ) == rat_lt(start_of(evs, j), start_of(evs, i)),
{
    let si = start_of(evs, i);
    let sj = start_of(evs, j);
    let di = evs[i].span.duration.0;
    let dj = evs[j].span.duration.0;
    let ed = e.denominator as int;
    let od = o.denominator as int;
    let sid = si.denominator as int;
    let sjd = sj.denominator as int;
    let did = di.denominator as int;
    let djd = dj.denominator as int;
    assert(did != 0 && djd != 0) by {
        assert(si.denominator * di.denominator != 0);
        assert(sj.denominator * dj.denominator != 0);
    }
    let m1 = ed * od;
    let m2 = m1 * sid;
    let m3 = m2 * did;
    let m4 = m3 * sjd;
    let m = m4 * djd;
    assert(m != 0) by (nonlinear_arith)
        requires
            ed > 0,
            od > 0,
            sid > 0,
            sjd > 0,
            did != 0,
            djd != 0,
            m1 == ed * od,
            m2 == m1 * sid,
            m3 == m2 * did,
            m4 == m3 * sjd,
            m == m4 * djd,
    ;
    assert(has_value(e, e.numerator as int, ed));
    lemma_scale_value(e, e.numerator as int, ed, od);
    lemma_scale_value(e, e.numerator * od, m1, sid);
    lemma_scale_value(e, e.numerator * od * sid, m2, did);
    lemma_scale_value(e, e.numerator * od * sid * did, m3, sjd);
    lemma_scale_value(e, e.numerator * od * sid * did * sjd, m4, djd);
    let ne = e.numerator * od * sid * did * sjd * djd;
    lemma_value_in(o, ed);
    lemma_scale_value(o, o.numerator * ed, m1, sid);
    lemma_scale_value(o, o.numerator * ed * sid, m2, did);
    lemma_scale_value(o, o.numerator * ed * sid * did, m3, sjd);
    lemma_scale_value(o, o.numerator * ed * sid * did * sjd, m4, djd);
    let no = o.numerator * ed * sid * did * sjd * djd;
    lemma_value_in(si, m1);
    lemma_scale_value(si, si.numerator * m1, m2, did);
    lemma_scale_value(si, si.numerator * m1 * did, m3, sjd);
    lemma_scale_value(si, si.numerator * m1 * did * sjd, m4, djd);
    let nsi = si.numerator * m1 * did * sjd * djd;
    lemma_value_in(di, m2);
    lemma_scale_value(di, di.numerator * m2, m3, sjd);
    lemma_scale_value(di, di.numerator * m2 * sjd, m4, djd);
    let ndi = di.numerator * m2 * sjd * djd;
    lemma_value_in(sj, m3);
    lemma_scale_value(sj, sj.numerator * m3, m4, djd);
    let nsj = sj.numerator * m3 * djd;
    lemma_value_in(dj, m4);
    let ndj = dj.numerator * m4;
    // the first event, mirrored
    lemma_combine_value(si, di, m, nsi, ndi, false);
    let ei = spec_add(si, di);
    lemma_combine_value(ei, o, m, nsi + ndi, no, true);
    lemma_combine_value(e, spec_sub(ei, o), m, ne, nsi + ndi - no, true);
    let ri = spec_sub(e, spec_sub(ei, o));
    lemma_combine_value(ri, di, m, ne - (nsi + ndi - no), ndi, false);
    // the second event, mirrored
    lemma_combine_value(sj, dj, m, nsj, ndj, false);
    let ej = spec_add(sj, dj);
    lemma_combine_value(ej, o, m, nsj + ndj, no, true);
    lemma_combine_value(e, spec_sub(ej, o), m, ne, nsj + ndj - no, true);
    let rj = spec_sub(e, spec_sub(ej, o));
    lemma_combine_value(rj, dj, m, ne - (nsj + ndj - no), ndj, false);
    lemma_order_by_value(spec_add(ri, di), spec_add(rj, dj), m, ne - (nsi + ndi - no) + ndi, ne - (nsj + ndj - no) + ndj);
    lemma_order_by_value(sj, si, m, nsj, nsi);
}

/// Over the first `k` events, the mirrored stream's running bounds are the
/// mirrors of the events that give the original's running bounds, swapped.
proof fn lemma_mirrored_indices(evs: Seq<PatternEventView>, o: Rational, e: Rational, k: int)
    requires
        evs.len() > 0,
        0 <= k <= evs.len(),
        starts_lowest(evs),
        lowest_terms(o),
        lowest_terms(e),
        reverse_ok(evs),
        spec_bounds(evs) == Some((CycleTime(o), CycleTime(e))),
        reverse_ok(spec_reverse_events(evs)),
    ensures
        bounds_upto(spec_reverse_events(evs), k) == (
            start_of(spec_reverse_events(evs), bound_indices(evs, k).1),
            end_of(spec_reverse_events(evs), bound_indices(evs, k).0),
        ),
    decreases k,
{
    let rv = spec_reverse_events(evs);
    lemma_bound_indices(evs, k);
    if k > 0 {
        lemma_mirrored_indices(evs, o, e, k - 1);
        lemma_bound_indices(evs, k - 1);
        let prev = bound_indices(evs, k - 1);
        let i = k - 1;
        assert(span_reverse_ok(evs[i].span, CycleTime(o), CycleTime(e)));
        assert(span_reverse_ok(evs[prev.0].span, CycleTime(o), CycleTime(e)));
        assert(span_reverse_ok(evs[prev.1].span, CycleTime(o), CycleTime(e)));
        assert(super::pattern_ir::span_end_ok(rv[i].span));
        assert(super::pattern_ir::span_end_ok(rv[prev.0].span));
        lemma_mirrored_starts(evs, o, e, i, prev.1);
        lemma_mirrored_ends(evs, o, e, prev.0, i);
    }
}

/// Reversing a stream whose events start at fractions in lowest terms (as
/// every constructed rational is) keeps its bounds, and reversing it again
/// gives it back, when every step stays in range.
#[verifier::spinoff_prover]
pub proof fn lemma_reverse_twice(evs: Seq<PatternEventView>)
    requires
        starts_lowest(evs),
        reverse_ok(evs),
        reverse_ok(spec_reverse_events(evs)),
    ensures
        spec_bounds(spec_reverse_events(evs)) == spec_bounds(evs),
        spec_reverse_events(spec_reverse_events(evs)) == evs,
{
    let rv = spec_reverse_events(evs);
    let n = evs.len() as int;
    if n > 0 {
        lemma_bound_indices(evs, n);
        let (a, b) = bound_indices(evs, n);
        let o = start_of(evs, a);
        let e = end_of(evs, b);
        lemma_end_lowest(evs, b);
        lemma_end_lowest(evs, a);
        assert(spec_bounds(evs) == Some((CycleTime(o), CycleTime(e))));
        lemma_mirrored_indices(evs, o, e, n);
        // the mirrored earliest start is the original one
        let ed = e.denominator as int;
        let od = o.denominator as int;
        let m = ed * od;
        assert(m > 0) by (nonlinear_arith)
            requires
                ed > 0,
                od > 0,
                m == ed * od,
        ;
        assert(has_value(e, e.numerator as int, ed));
        lemma_scale_value(e, e.numerator as int, ed, od);
        lemma_value_in(o, ed);
        let ne = e.numerator * od;
        let no = o.numerator * ed;
        assert(span_reverse_ok(evs[b].span, CycleTime(o), CycleTime(e)));
        lemma_combine_value(e, o, m, ne, no, true);
        lemma_combine_value(e, spec_sub(e, o), m, ne, ne - no, true);
        lemma_same_value(start_of(rv, b), o, m, no);
        // the mirrored latest end is the original one
        let d = evs[a].span.duration.0;
        let dd = d.denominator as int;
        assert(dd != 0) by {
            assert(o.denominator * d.denominator != 0);
        }
        let m2 = m * dd;
        assert(m2 != 0) by (nonlinear_arith)
            requires
                m > 0,
                dd != 0,
                m2 == m * dd,
        ;
        lemma_scale_value(e, ne, m, dd);
        lemma_scale_value(o, no, m, dd);
        lemma_value_in(d, m);
        let nd = d.numerator * m;
        assert(span_reverse_ok(evs[a].span, CycleTime(o), CycleTime(e)));
        lemma_combine_value(o, d, m2, no * dd, nd, false);
        let ea = spec_add(o, d);
        lemma_combine_value(ea, o, m2, no * dd + nd, no * dd, true);
        lemma_combine_value(e, spec_sub(ea, o), m2, ne * dd, no * dd + nd - no * dd, true);
        let ra = spec_sub(e, spec_sub(ea, o));
        assert(super::pattern_ir::span_end_ok(rv[a].span));
        lemma_combine_value(ra, d, m2, ne * dd - (no * dd + nd - no * dd), nd, false);
        lemma_same_value(end_of(rv, a), e, m2, ne * dd);
        assert(spec_bounds(rv) == spec_bounds(evs));
        assert forall|i: int| 0 <= i < n implies #[trigger] spec_reverse_events(rv)[i] == evs[i] by {
            assert(span_reverse_ok(evs[i].span, CycleTime(o), CycleTime(e)));
            assert(span_reverse_ok(rv[i].span, CycleTime(o), CycleTime(e)));
            lemma_reverse_round_trip(evs[i].span, CycleTime(o), CycleTime(e));
        }
        assert(spec_reverse_events(rv) =~= evs);
    }
}


// Scaling
// ---------------------------------------------------------------------------

/// Every event lasts a fraction in lowest terms.
pub open spec fn durations_lowest(evs: Seq<PatternEventView>) -> bool {
    forall|i: int| 0 <= i < evs.len() ==> lowest_terms(#[trigger] evs[i].span.duration.0)
}

/// A positive factor in lowest terms has a positive numerator.
pub open spec fn positive_lowest(g: Rational) -> bool {
    lowest_terms(g) && g.numerator > 0
}

/// Scaling by a positive factor about `o` keeps the order of starts and of
/// ends.
#[verifier::spinoff_prover]
proof fn lemma_scaled_order(evs: Seq<PatternEventView>, o: Rational, g: Rational, i: int, j: int)
    requires
        0 <= i < evs.len(),
        0 <= j < evs.len(),
        lowest_terms(o),
        lowest_terms(start_of(evs, i)),
        lowest_terms(start_of(evs, j)),
        positive_lowest(g),
        span_end_ok(evs[i].span),
        span_end_ok(evs[j].span),
        span_scale_ok(evs[i].span, CycleTime(o), g),
        span_scale_ok(evs[j].span, CycleTime(o), g),
        span_end_ok(spec_span_scale(evs[i].span, CycleTime(o), g)),
        span_end_ok(spec_span_scale(evs[j].span, CycleTime(o), g)),
    ensures
        rat_lt(
            spec_span_scale(evs[i].span, CycleTime(o), g).start.0,
            spec_span_scale(evs[j].span, CycleTime(o), g).start.0,
        ) == rat_lt(start_of(evs, i), start_of(evs, j)),
        rat_lt(
            spec_span_end(spec_span_scale(evs[i].span, CycleTime(o), g)).0,
            spec_span_end(spec_span_scale(evs[j].span, CycleTime(o), g)).0,
        ) == rat_lt(end_of(evs, i), end_of(evs, j)),
{
    let si = start_of(evs, i);
    let sj = start_of(evs, j);
    let di = evs[i].span.duration.0;
    let dj = evs[j].span.duration.0;
    let od = o.denominator as int;
    let sid = si.denominator as int;
    let sjd = sj.denominator as int;
    let did = di.denominator as int;
    let djd = dj.denominator as int;
    let gn = g.numerator as int;
    let gd = g.denominator as int;
    assert(did != 0 && djd != 0) by {
        assert(si.denominator * di.denominator != 0);
        assert(sj.denominator * dj.denominator != 0);
    }
    let m1 = od * sid;
    let m2 = m1 * did;
    let m3 = m2 * sjd;
    let m = m3 * djd;
    assert(m != 0) by (nonlinear_arith)
        requires
            od > 0,
            sid > 0,
            sjd > 0,
            did != 0,
            djd != 0,
            m1 == od * sid,
            m2 == m1 * did,
            m3 == m2 * sjd,
            m == m3 * djd,
    ;
    assert(has_value(o, o.numerator as int, od));
    lemma_scale_value(o, o.numerator as int, od, sid);
    lemma_scale_value(o, o.numerator * sid, m1, did);
    lemma_scale_value(o, o.numerator * sid * did, m2, sjd);
    lemma_scale_value(o, o.numerator * sid * did * sjd, m3, djd);
    let no = o.numerator * sid * did * sjd * djd;
    lemma_value_in(si, od);
    lemma_scale_value(si, si.numerator * od, m1, did);
    lemma_scale_value(si, si.numerator * od * did, m2, sjd);
    lemma_scale_value(si, si.numerator * od * did * sjd, m3, djd);
    let nsi = si.numerator * od * did * sjd * djd;
    lemma_value_in(di, m1);
    lemma_scale_value(di, di.numerator * m1, m2, sjd);
    lemma_scale_value(di, di.numerator * m1 * sjd, m3, djd);
    let ndi = di.numerator * m1 * sjd * djd;
    lemma_value_in(sj, m2);
    lemma_scale_value(sj, sj.numerator * m2, m3, djd);
    let nsj = sj.numerator * m2 * djd;
    lemma_value_in(dj, m3);
    let ndj = dj.numerator * m3;
    assert(has_value(g, gn, gd));
    let mg = m * gd;
    assert(mg != 0 && (mg > 0) == (m > 0)) by (nonlinear_arith)
        requires
            m != 0,
            gd > 0,
            mg == m * gd,
    ;
    lemma_scale_value(o, no, m, gd);
    // the first event
    lemma_combine_value(si, o, m, nsi, no, true);
    let reli = spec_sub(si, o);
    lemma_mul_value(reli, g, m, nsi - no, gd, gn);
    lemma_combine_value(o, spec_mul(reli, g), mg, no * gd, (nsi - no) * gn, false);
    let ai = no * gd + (nsi - no) * gn;
    let sti = spec_add(o, spec_mul(reli, g));
    lemma_mul_value(di, g, m, ndi, gd, gn);
    lemma_combine_value(sti, spec_mul(di, g), mg, ai, ndi * gn, false);
    lemma_combine_value(si, di, m, nsi, ndi, false);
    // the second event
    lemma_combine_value(sj, o, m, nsj, no, true);
    let relj = spec_sub(sj, o);
    lemma_mul_value(relj, g, m, nsj - no, gd, gn);
    lemma_combine_value(o, spec_mul(relj, g), mg, no * gd, (nsj - no) * gn, false);
    let aj = no * gd + (nsj - no) * gn;
    let stj = spec_add(o, spec_mul(relj, g));
    lemma_mul_value(dj, g, m, ndj, gd, gn);
    lemma_combine_value(stj, spec_mul(dj, g), mg, aj, ndj * gn, false);
    lemma_combine_value(sj, dj, m, nsj, ndj, false);
    // orders
    lemma_order_by_value(sti, stj, mg, ai, aj);
    lemma_order_by_value(si, sj, m, nsi, nsj);
    assert((ai < aj) == (nsi < nsj) && (aj < ai) == (nsj < nsi)) by (nonlinear_arith)
        requires
            gn > 0,
            ai == no * gd + (nsi - no) * gn,
            aj == no * gd + (nsj - no) * gn,
    ;
    let bi = ai + ndi * gn;
    let bj = aj + ndj * gn;
    lemma_order_by_value(spec_add(sti, spec_mul(di, g)), spec_add(stj, spec_mul(dj, g)), mg, bi, bj);
    lemma_order_by_value(spec_add(si, di), spec_add(sj, dj), m, nsi + ndi, nsj + ndj);
    assert((bi < bj) == (nsi + ndi < nsj + ndj) && (bj < bi) == (nsj + ndj < nsi + ndi)) by (nonlinear_arith)
        requires
            gn > 0,
            bi == no * gd + (nsi - no) * gn + ndi * gn,
            bj == no * gd + (nsj - no) * gn + ndj * gn,
    ;
}

/// Over the first `k` events, the scaled stream's running bounds come from
/// the same events as the original's.
proof fn lemma_scaled_indices(evs: Seq<PatternEventView>, o: Rational, g: Rational, k: int)
    requires
        evs.len() > 0,
        0 <= k <= evs.len(),
        starts_lowest(evs),
        lowest_terms(o),
        positive_lowest(g),
        scale_ok(evs, g),
        spec_bounds(evs) matches Some((origin, _)) && origin == CycleTime(o),
        super::pattern_ir::ends_ok(spec_scale_events(evs, g)),
    ensures
        bounds_upto(spec_scale_events(evs, g), k) == (
            start_of(spec_scale_events(evs, g), bound_indices(evs, k).0),
            end_of(spec_scale_events(evs, g), bound_indices(evs, k).1),
        ),
    decreases k,
{
    let sc = spec_scale_events(evs, g);
    lemma_bound_indices(evs, k);
    if k > 0 {
        lemma_scaled_indices(evs, o, g, k - 1);
        lemma_bound_indices(evs, k - 1);
        let prev = bound_indices(evs, k - 1);
        let i = k - 1;
        assert(span_scale_ok(evs[i].span, CycleTime(o), g));
        assert(span_scale_ok(evs[prev.0].span, CycleTime(o), g));
        assert(span_scale_ok(evs[prev.1].span, CycleTime(o), g));
        assert(span_end_ok(sc[i].span));
        assert(span_end_ok(sc[prev.0].span));
        assert(span_end_ok(sc[prev.1].span));
        lemma_scaled_order(evs, o, g, i, prev.0);
        lemma_scaled_order(evs, o, g, prev.1, i);
    }
}

/// Scaling a span about `o` by `g` and then by `f`, where `g * f` is one,
/// gives the span back, when its start and duration are in lowest terms.
#[verifier::spinoff_prover]
proof fn lemma_scale_back(s: CycleSpan, o: Rational, g: Rational, f: Rational)
    requires
        lowest_terms(s.start.0),
        lowest_terms(s.duration.0),
        lowest_terms(o),
        g.denominator != 0,
        f.denominator != 0,
        g.numerator * f.numerator == f.denominator * g.denominator,
        span_scale_ok(s, CycleTime(o), g),
        span_scale_ok(spec_span_scale(s, CycleTime(o), g), CycleTime(o), f),
    ensures
        spec_span_scale(spec_span_scale(s, CycleTime(o), g), CycleTime(o), f) == s,
{
    let st = s.start.0;
    let d = s.duration.0;
    let od = o.denominator as int;
    let sd = st.denominator as int;
    let gn = g.numerator as int;
    let gd = g.denominator as int;
    let fnum = f.numerator as int;
    let fd = f.denominator as int;
    let m = od * sd;
    assert(m > 0) by (nonlinear_arith)
        requires
            od > 0,
            sd > 0,
            m == od * sd,
    ;
    assert(has_value(o, o.numerator as int, od));
    lemma_scale_value(o, o.numerator as int, od, sd);
    let no = o.numerator * sd;
    lemma_value_in(st, od);
    let ns = st.numerator * od;
    assert(has_value(g, gn, gd));
    assert(has_value(f, fnum, fd));
    let mg = m * gd;
    let mgf = mg * fd;
    assert(mg != 0 && mgf != 0) by (nonlinear_arith)
        requires
            m > 0,
            gd != 0,
            fd != 0,
            mg == m * gd,
            mgf == mg * fd,
    ;
    lemma_combine_value(st, o, m, ns, no, true);
    let rel = spec_sub(st, o);
    lemma_mul_value(rel, g, m, ns - no, gd, gn);
    lemma_scale_value(o, no, m, gd);
    lemma_combine_value(o, spec_mul(rel, g), mg, no * gd, (ns - no) * gn, false);
    let st1 = spec_add(o, spec_mul(rel, g));
    let a1 = no * gd + (ns - no) * gn;
    lemma_combine_value(st1, o, mg, a1, no * gd, true);
    let rel2 = spec_sub(st1, o);
    lemma_mul_value(rel2, f, mg, a1 - no * gd, fd, fnum);
    lemma_scale_value(o, no * gd, mg, fd);
    lemma_combine_value(o, spec_mul(rel2, f), mgf, no * gd * fd, (a1 - no * gd) * fnum, false);
    let st2 = spec_add(o, spec_mul(rel2, f));
    lemma_scale_value(st, ns, m, gd);
    lemma_scale_value(st, ns * gd, mg, fd);
    assert(no * gd * fd + (a1 - no * gd) * fnum == ns * gd * fd) by (nonlinear_arith)
        requires
            gn * fnum == fd * gd,
            a1 == no * gd + (ns - no) * gn,
    ;
    lemma_same_value(st2, st, mgf, ns * gd * fd);
    // the duration
    let dd = d.denominator as int;
    assert(has_value(d, d.numerator as int, dd));
    lemma_mul_value(d, g, dd, d.numerator as int, gd, gn);
    let d1 = spec_mul(d, g);
    assert(dd * gd != 0) by (nonlinear_arith)
        requires
            dd > 0,
            gd != 0,
    ;
    lemma_mul_value(d1, f, dd * gd, d.numerator * gn, fd, fnum);
    lemma_scale_value(d, d.numerator as int, dd, gd);
    lemma_scale_value(d, d.numerator * gd, dd * gd, fd);
    assert(d.numerator * gn * fnum == d.numerator * gd * fd) by (nonlinear_arith)
        requires
            gn * fnum == fd * gd,
    ;
    assert((dd * gd) * fd != 0) by (nonlinear_arith)
        requires
            dd * gd != 0,
            fd != 0,
    ;
    lemma_same_value(spec_mul(d1, f), d, (dd * gd) * fd, d.numerator * gd * fd);
}

/// Playing a stream `factor` times faster leaves it as it is when `factor`
/// is not positive; when it is, the stream keeps its earliest start, and
/// playing the result `factor` times slower gives the stream back. This
/// holds for a stream whose event starts and durations are in lowest terms
/// (as every constructed rational is), a factor in lowest terms, and every
/// step in range.
#[verifier::spinoff_prover]
pub proof fn lemma_slow_undoes_fast(evs: Seq<PatternEventView>, factor: Rational)
    requires
        starts_lowest(evs),
        durations_lowest(evs),
        lowest_terms(factor),
        fast_ok(evs, factor),
        scale_ok(spec_fast(evs, factor), factor),
    ensures
        !rat_positive(factor) ==> spec_fast(evs, factor) == evs,
        rat_positive(factor) && evs.len() > 0 ==> spec_bounds(spec_fast(evs, factor)).unwrap().0 == spec_bounds(
            evs,
        ).unwrap().0,
        rat_positive(factor) ==> spec_scale_events(spec_fast(evs, factor), factor) == evs,
{
    if rat_positive(factor) {
        assert((0int as i64) == 0i64) by (bit_vector);
        assert((1int as i64) == 1i64) by (bit_vector);
        let fnum = factor.numerator as int;
        let fd = factor.denominator as int;
        assert(fnum > 0);
        let one = spec_integer(1);
        assert(one.numerator == 1 && one.denominator == 1);
        let g = spec_div(one, factor);
        assert(one.numerator * factor.denominator == fd);
        assert(one.denominator * factor.numerator == fnum);
        assert(g == super::rational::spec_make(fd, fnum));
        lemma_make_value(fd, fnum);
        let gn = g.numerator as int;
        let gd = g.denominator as int;
        assert(gn * fnum == fd * gd);
        assert(gn > 0) by (nonlinear_arith)
            requires
                gn * fnum == fd * gd,
                fnum > 0,
                fd > 0,
                gd > 0,
        ;
        let sc = spec_fast(evs, factor);
        assert(sc == spec_scale_events(evs, g));
        let n = evs.len() as int;
        if n > 0 {
            lemma_bound_indices(evs, n);
            let (a, b) = bound_indices(evs, n);
            let o = start_of(evs, a);
            assert(spec_bounds(evs) == Some((CycleTime(o), CycleTime(end_of(evs, b)))));
            lemma_scaled_indices(evs, o, g, n);
            // the scaled earliest start is the original one
            let od = o.denominator as int;
            assert(has_value(o, o.numerator as int, od));
            assert(span_scale_ok(evs[a].span, CycleTime(o), g));
            lemma_combine_value(o, o, od, o.numerator as int, o.numerator as int, true);
            assert(has_value(g, gn, gd));
            lemma_mul_value(spec_sub(o, o), g, od, o.numerator - o.numerator, gd, gn);
            lemma_scale_value(o, o.numerator as int, od, gd);
            assert(od * gd != 0) by (nonlinear_arith)
                requires
                    od > 0,
                    gd > 0,
            ;
            lemma_combine_value(o, spec_mul(spec_sub(o, o), g), od * gd, o.numerator * gd, (o.numerator - o.numerator) * gn, false);
            assert(o.numerator * gd + (o.numerator - o.numerator) * gn == o.numerator * gd);
            lemma_same_value(start_of(sc, a), o, od * gd, o.numerator * gd);
            assert(spec_bounds(sc).unwrap().0 == CycleTime(o));
            assert forall|i: int| 0 <= i < n implies #[trigger] spec_scale_events(sc, factor)[i] == evs[i] by {
                assert(span_scale_ok(evs[i].span, CycleTime(o), g));
                assert(span_scale_ok(sc[i].span, CycleTime(o), factor));
                lemma_scale_back(evs[i].span, o, g, factor);
            }
            assert(spec_scale_events(sc, factor) =~= evs);
        }
    }
}


// Chaining
// ---------------------------------------------------------------------------

/// Chaining two streams keeps every event of both, left ones first, with
/// their values, fields and durations: a left event moves back by the
/// left stream's earliest start, so the left part begins at cycle zero;
/// a right event moves back by the right stream's earliest start and then
/// later by the left stream's duration, so the right part begins where the
/// left part's length ends.
pub proof fn lemma_chain_places_right_after_left(left: Seq<PatternEventView>, right: Seq<PatternEventView>)
    ensures
        spec_chain(left, right).len() == left.len() + right.len(),
        forall|i: int|
            #![trigger spec_chain(left, right)[i]]
            0 <= i < left.len() ==> {
                let c = spec_chain(left, right)[i];
                &&& c.value == left[i].value
                &&& c.fields == left[i].fields
                &&& c.span.duration == left[i].span.duration
                &&& c.span.start.0 == spec_add(
                    left[i].span.start.0,
                    spec_sub(spec_integer(0), spec_bounds(left)->Some_0.0.0),
                )
            },
        forall|i: int|
            #![trigger spec_chain(left, right)[left.len() + i]]
            0 <= i < right.len() ==> {
                let c = spec_chain(left, right)[left.len() + i];
                &&& c.value == right[i].value
                &&& c.fields == right[i].fields
                &&& c.span.duration == right[i].span.duration
                &&& c.span.start.0 == spec_add(
                    spec_add(right[i].span.start.0, spec_sub(spec_integer(0), spec_bounds(right)->Some_0.0.0)),
                    spec_duration(left).0,
                )
            },
{
    let c = spec_chain(left, right);
    let nl = spec_normalize(left);
    let nr = spec_normalize(right);
    assert(c == nl + spec_shift_events(nr, spec_duration(left)));
    assert forall|i: int| #![trigger spec_chain(left, right)[i]] 0 <= i < left.len() implies {
        let c = spec_chain(left, right)[i];
        &&& c.value == left[i].value
        &&& c.fields == left[i].fields
        &&& c.span.duration == left[i].span.duration
        &&& c.span.start.0 == spec_add(left[i].span.start.0, spec_sub(spec_integer(0), spec_bounds(left)->Some_0.0.0))
    } by {
        assert(c[i] == nl[i]);
    }
    assert forall|i: int| #![trigger spec_chain(left, right)[left.len() + i]] 0 <= i < right.len() implies {
        let c = spec_chain(left, right)[left.len() + i];
        &&& c.value == right[i].value
        &&& c.fields == right[i].fields
        &&& c.span.duration == right[i].span.duration
        &&& c.span.start.0 == spec_add(
            spec_add(right[i].span.start.0, spec_sub(spec_integer(0), spec_bounds(right)->Some_0.0.0)),
            spec_duration(left).0,
        )
    } by {
        assert(c[left.len() + i] == spec_shift_events(nr, spec_duration(left))[i]);
    }
}

} // verus!
