use vstd::prelude::*;
use crate::rating_type::add_mul;
use crate::segments::{FullSegment, RatingSegment, DualSegment, DualFullSegment, RatingInfo, OffsetInfo, DualInfo, PointSpan, Point, seg_begin, wf_seq, seq_end, wf_full, full_end, rating_at, delta_at, seg_dual_rating_at, seg_dual_offset_at, seg_dual_delta_at, dual_rating_at, dual_offset_at, rating_eval, rating_delta_eval, dual_rating_eval, dual_offset_eval, dual_delta_eval, ratings_representable, dual_segs_representable, duals_representable, lemma_value_at_index, lemma_full_value_at_push, lemma_wf_full_push, lemma_seg_bounds, lemma_end_le_begin, lemma_line_rebase, lemma_mul_distrib_add, lemma_linear_between, lemma_linear_strict, lemma_full_seg_bounds, lemma_full_value_at_index};
use crate::streams::{SegmentIterator, FullSegmentIterator, RatingIterator, DualIterator,
    DualFullSegmentIterator};

verus! {

/// A new full dual segment whose two lines stay within `i64` over its span
/// keeps a run representable.
#[verifier::rlimit(100)]
pub proof fn lemma_duals_representable_push(s: Seq<DualFullSegment>, x: DualFullSegment)
    requires
        duals_representable(s),
        forall|len: int|
            #![trigger x.data.rating_info.spec_at(len)]
            #![trigger x.data.offset_info.spec_at(len)]
            0 <= len <= x.span.end - x.span.start ==> {
                &&& i64::MIN <= x.data.rating_info.spec_at(len) <= i64::MAX
                &&& i64::MIN <= x.data.offset_info.spec_at(len) <= i64::MAX
            },
    ensures
        duals_representable(s.push(x)),
{
    let s2 = s.push(x);
    assert forall|i: int, len: int|
        #![trigger s2[i].data.rating_info.spec_at(len)]
        #![trigger s2[i].data.offset_info.spec_at(len)]
        0 <= i < s2.len() && 0 <= len <= s2[i].span.end - s2[i].span.start implies {
        &&& i64::MIN <= s2[i].data.rating_info.spec_at(len) <= i64::MAX
        &&& i64::MIN <= s2[i].data.offset_info.spec_at(len) <= i64::MAX
    } by {
        if i < s.len() {
            assert(s2[i] == s[i]);
            assert(i64::MIN <= s[i].data.rating_info.spec_at(len) <= i64::MAX);
            assert(i64::MIN <= s[i].data.offset_info.spec_at(len) <= i64::MAX);
        } else {
            assert(s2[i] == x);
            assert(i64::MIN <= x.data.rating_info.spec_at(len) <= i64::MAX);
            assert(i64::MIN <= x.data.offset_info.spec_at(len) <= i64::MAX);
        }
    }
}

/// The larger of two values.
pub open spec fn spec_max(x: int, y: int) -> int {
    if x > y {
        x
    } else {
        y
    }
}

/// The running maximum of a dual signal's rating at point `t`: the largest
/// rating at any point from `start` through `t`, and at least zero.
pub open spec fn running_max(s: Seq<DualFullSegment>, start: int, t: int) -> int
    decreases t - start,
{
    if t <= start {
        spec_max(0, dual_rating_at(s, start))
    } else {
        spec_max(running_max(s, start, t - 1), dual_rating_at(s, t))
    }
}

/// Over a stretch whose ratings stay at or below the running maximum, the
/// running maximum does not move.
pub proof fn lemma_running_max_const(s: Seq<DualFullSegment>, start: int, p: int, t: int, m: int)
    requires
        start <= p <= t,
        running_max(s, start, p) == m,
        forall|u: int| p < u <= t ==> #[trigger] dual_rating_at(s, u) <= m,
    ensures
        running_max(s, start, t) == m,
    decreases t - p,
{
    if t > p {
        lemma_running_max_const(s, start, p, t - 1, m);
    }
}

/// Over a stretch of nondecreasing ratings that start at the running
/// maximum, the running maximum follows the rating.
pub proof fn lemma_running_max_follows(s: Seq<DualFullSegment>, start: int, p: int, t: int)
    requires
        start <= p <= t,
        running_max(s, start, p) == dual_rating_at(s, p),
        forall|u: int| p < u <= t ==> #[trigger] dual_rating_at(s, u - 1) <= dual_rating_at(s, u),
    ensures
        running_max(s, start, t) == dual_rating_at(s, t),
    decreases t - p,
{
    if t > p {
        lemma_running_max_follows(s, start, p, t - 1);
        assert(dual_rating_at(s, t - 1) <= dual_rating_at(s, t));
    }
}

/// What the running maximum guarantees at one point `t`: the output's
/// rating equals the running maximum of the input, and, where that maximum
/// is positive, the output's offset is the input's offset at a point that
/// attains the maximum.
pub open spec fn ltr_ok(s: Seq<DualFullSegment>, g: int, out: Seq<DualFullSegment>, t: int) -> bool {
    &&& dual_rating_at(out, t) == running_max(s, g, t)
    &&& (running_max(s, g, t) > 0 ==> exists|u: int|
        g <= u <= t && #[trigger] dual_rating_at(s, u) == running_max(s, g, t) && dual_offset_at(
            out, t) == dual_offset_at(s, u))
}

/// Appending a segment whose lines realize the running maximum extends the
/// pointwise guarantee `ltr_ok` over the appended span.
#[verifier::rlimit(100)]
pub proof fn lemma_ltr_push_ok(
    s: Seq<DualFullSegment>,
    g: int,
    old_out: Seq<DualFullSegment>,
    x: DualFullSegment,
)
    requires
        wf_full(g, old_out),
        x.span.start == full_end(g, old_out),
        x.span.start < x.span.end,
        g <= x.span.start,
        forall|t: int| g <= t < full_end(g, old_out) ==> #[trigger] ltr_ok(s, g, old_out, t),
        forall|t: int|
            x.span.start <= t < x.span.end ==> {
                &&& #[trigger] x.data.rating_info.spec_at(t - x.span.start) == running_max(s, g, t)
                &&& (running_max(s, g, t) > 0 ==> exists|u: int|
                    g <= u <= t && #[trigger] dual_rating_at(s, u) == running_max(s, g, t)
                        && x.data.offset_info.spec_at(t - x.span.start) == dual_offset_at(s, u))
            },
    ensures
        forall|t: int| g <= t < x.span.end ==> #[trigger] ltr_ok(s, g, old_out.push(x), t),
{
    assert forall|t: int| g <= t < x.span.end implies #[trigger] ltr_ok(
        s, g, old_out.push(x), t) by {
        lemma_full_value_at_push(g, old_out, dual_rating_eval(), x, t);
        lemma_full_value_at_push(g, old_out, dual_offset_eval(), x, t);
        if t < x.span.start {
            assert(ltr_ok(s, g, old_out, t));
            if running_max(s, g, t) > 0 {
                let u0 = choose|u: int|
                    g <= u <= t && #[trigger] dual_rating_at(s, u) == running_max(s, g, t)
                        && dual_offset_at(old_out, t) == dual_offset_at(s, u);
                assert(dual_rating_at(s, u0) == running_max(s, g, t) && dual_offset_at(
                    old_out.push(x), t) == dual_offset_at(s, u0));
            }
        } else {
            assert(x.data.rating_info.spec_at(t - x.span.start) == running_max(s, g, t));
            if running_max(s, g, t) > 0 {
                let u0 = choose|u: int|
                    g <= u <= t && #[trigger] dual_rating_at(s, u) == running_max(s, g, t)
                        && x.data.offset_info.spec_at(t - x.span.start) == dual_offset_at(s, u);
                assert(dual_rating_at(s, u0) == running_max(s, g, t) && dual_offset_at(
                    old_out.push(x), t) == dual_offset_at(s, u0));
            }
        }
    }
}

impl SegmentIterator<DualInfo> {
    /// Pointwise sum of a dual signal and a rating signal sharing the same
    /// start and end: ratings and slopes add, the dual signal's offsets are
    /// carried through unchanged.
    #[verifier::rlimit(100)]
    pub fn add_ratings_from(self, iter2: RatingIterator) -> (r: DualFullSegmentIterator)
        requires
            self.wf(),
            iter2.wf(),
            self.start == iter2.start,
            self.segs@.len() > 0,
            iter2.segs@.len() > 0,
            self.spec_end() == iter2.spec_end(),
            self.spec_end() - self.start <= i64::MAX,
            dual_segs_representable(self.start as int, self.segs@),
            ratings_representable(iter2.start as int, iter2.segs@),
            forall|t: int|
                self.start <= t <= self.spec_end() ==> i64::MIN <= #[trigger] seg_dual_rating_at(
                    self.start as int, self.segs@, t) + rating_at(
                    self.start as int, iter2.segs@, t) <= i64::MAX,
            forall|t: int|
                self.start <= t <= self.spec_end() ==> i64::MIN <= #[trigger] seg_dual_delta_at(
                    self.start as int, self.segs@, t) + delta_at(self.start as int, iter2.segs@, t)
                    <= i64::MAX,
            forall|t: int|
                self.start <= t < self.spec_end() ==> i64::MIN <= #[trigger] seg_dual_rating_at(
                    self.start as int, self.segs@, t) + rating_at(self.start as int, iter2.segs@, t)
                    + seg_dual_delta_at(self.start as int, self.segs@, t) + delta_at(
                    self.start as int, iter2.segs@, t) <= i64::MAX,
        ensures
            r.start == self.start,
            r.wf(),
            r.spec_end() == self.spec_end(),
            duals_representable(r.segs@),
            forall|t: int|
                self.start <= t < self.spec_end() ==> #[trigger] dual_rating_at(r.segs@, t)
                    == seg_dual_rating_at(self.start as int, self.segs@, t) + rating_at(
                    self.start as int, iter2.segs@, t),
            forall|t: int|
                self.start <= t < self.spec_end() ==> #[trigger] dual_offset_at(r.segs@, t)
                    == seg_dual_offset_at(self.start as int, self.segs@, t),
    {
        let ghost g: int = self.start as int;
        let ghost a: Seq<DualSegment> = self.segs@;
        let ghost b: Seq<RatingSegment> = iter2.segs@;
        let ghost gend: int = self.spec_end();
        let na: usize = self.segs.len();
        let nb: usize = iter2.segs.len();
        let mut out: Vec<DualFullSegment> = Vec::new();
        let mut ia: usize = 0;
        let mut ib: usize = 0;
        let mut begin_a: Point = self.start;
        let mut begin_b: Point = self.start;
        let mut seg_start: Point = self.start;
        let mut done: bool = false;
        proof {
            assert(seg_begin(g, a, 0) < a[0].end_point);
            assert(seg_begin(g, b, 0) < b[0].end_point);
            lemma_seg_bounds(g, a, 0);
            lemma_seg_bounds(g, b, 0);
        }
        while !done
            invariant
                na == a.len(),
                nb == b.len(),
                a == self.segs@,
                b == iter2.segs@,
                g == self.start as int,
                g == iter2.start as int,
                na > 0,
                nb > 0,
                gend == seq_end(g, a),
                gend == seq_end(g, b),
                gend - g <= i64::MAX,
                wf_seq(g, a),
                wf_seq(g, b),
                dual_segs_representable(g, a),
                ratings_representable(g, b),
                forall|t: int|
                    g <= t <= gend ==> i64::MIN <= #[trigger] seg_dual_rating_at(g, a, t)
                        + rating_at(g, b, t) <= i64::MAX,
                forall|t: int|
                    g <= t <= gend ==> i64::MIN <= #[trigger] seg_dual_delta_at(g, a, t)
                        + delta_at(g, b, t) <= i64::MAX,
                forall|t: int|
                    g <= t < gend ==> i64::MIN <= #[trigger] seg_dual_rating_at(g, a, t)
                        + rating_at(g, b, t) + seg_dual_delta_at(g, a, t) + delta_at(g, b, t)
                        <= i64::MAX,
                0 <= ia < na,
                0 <= ib < nb,
                begin_a == seg_begin(g, a, ia as int),
                begin_b == seg_begin(g, b, ib as int),
                !done ==> begin_a <= seg_start < a[ia as int].end_point,
                !done ==> begin_b <= seg_start < b[ib as int].end_point,
                g <= seg_start <= gend,
                wf_full(g, out@),
                full_end(g, out@) == seg_start,
                duals_representable(out@),
                forall|t: int|
                    g <= t < seg_start ==> #[trigger] dual_rating_at(out@, t)
                        == seg_dual_rating_at(g, a, t) + rating_at(g, b, t),
                forall|t: int|
                    g <= t < seg_start ==> #[trigger] dual_offset_at(out@, t)
                        == seg_dual_offset_at(g, a, t),
                done ==> seg_start == gend,
            decreases (na - ia) + (nb - ib) + if done { 0int } else { 1int },
        {
            let ghost gia: int = ia as int;
            let ghost gib: int = ib as int;
            let sa = self.segs[ia];
            let sb = iter2.segs[ib];
            proof {
                assert(seg_begin(g, a, gia) < a[gia].end_point);
                assert(seg_begin(g, b, gib) < b[gib].end_point);
                lemma_seg_bounds(g, a, gia);
                lemma_seg_bounds(g, b, gib);
            }
            let m: Point = if sa.end_point < sb.end_point {
                sa.end_point
            } else {
                sb.end_point
            };
            // The two current lines, re-anchored at the emitted span start.
            proof {
                assert(i64::MIN <= sa.data.rating_info.spec_at(seg_start - begin_a) <= i64::MAX);
                assert(i64::MIN <= sa.data.offset_info.spec_at(seg_start - begin_a) <= i64::MAX);
                assert(i64::MIN <= sb.data.spec_at(seg_start - begin_b) <= i64::MAX);
                lemma_value_at_index(g, a, dual_rating_eval(), gia, seg_start as int);
                lemma_value_at_index(g, a, dual_offset_eval(), gia, seg_start as int);
                lemma_value_at_index(g, a, dual_delta_eval(), gia, seg_start as int);
                lemma_value_at_index(g, b, rating_eval(), gib, seg_start as int);
                lemma_value_at_index(g, b, rating_delta_eval(), gib, seg_start as int);
                assert(seg_dual_rating_at(g, a, seg_start as int) == sa.data.rating_info.spec_at(
                    seg_start - begin_a));
                assert(rating_at(g, b, seg_start as int) == sb.data.spec_at(seg_start - begin_b));
                assert(seg_dual_delta_at(g, a, seg_start as int) == sa.data.rating_info.delta);
                assert(delta_at(g, b, seg_start as int) == sb.data.delta);
                assert(i64::MIN <= seg_dual_rating_at(g, a, seg_start as int) + rating_at(
                    g, b, seg_start as int) <= i64::MAX);
                assert(i64::MIN <= seg_dual_delta_at(g, a, seg_start as int) + delta_at(
                    g, b, seg_start as int) <= i64::MAX);
            }
            let r1: i64 = add_mul(sa.data.rating_info.rating, sa.data.rating_info.delta,
                seg_start - begin_a);
            let r2: i64 = add_mul(sb.data.rating, sb.data.delta, seg_start - begin_b);
            let off: OffsetInfo = OffsetInfo {
                offset: sa.data.offset_info.advanced_offset(seg_start - begin_a),
                drag: sa.data.offset_info.drag,
            };
            let emitted = FullSegment {
                span: PointSpan { start: seg_start, end: m },
                data: DualInfo {
                    rating_info: RatingInfo {
                        rating: r1 + r2,
                        delta: sa.data.rating_info.delta + sb.data.delta,
                    },
                    offset_info: off,
                },
            };
            proof {
                // Values of the emitted segment match the pointwise sums.
                assert forall|len: int| 0 <= len < m - seg_start implies {
                    &&& #[trigger] emitted.data.rating_info.spec_at(len) == seg_dual_rating_at(
                        g, a, seg_start + len) + rating_at(g, b, seg_start + len)
                    &&& emitted.data.offset_info.spec_at(len) == seg_dual_offset_at(
                        g, a, seg_start + len)
                } by {
                    let t: int = seg_start + len;
                    lemma_value_at_index(g, a, dual_rating_eval(), gia, t);
                    lemma_value_at_index(g, a, dual_offset_eval(), gia, t);
                    lemma_value_at_index(g, b, rating_eval(), gib, t);
                    lemma_mul_distrib_add(sa.data.rating_info.delta as int, sb.data.delta as int,
                        len);
                    lemma_line_rebase(sa.data.rating_info.rating as int,
                        sa.data.rating_info.delta as int, begin_a as int, seg_start as int, t);
                    lemma_line_rebase(sb.data.rating as int, sb.data.delta as int, begin_b as int,
                        seg_start as int, t);
                    if sa.data.offset_info.drag {
                        lemma_line_rebase(sa.data.offset_info.offset as int, 1, begin_a as int,
                            seg_start as int, t);
                    }
                }
                assert forall|len: int|
                    #![trigger emitted.data.rating_info.spec_at(len)]
                    #![trigger emitted.data.offset_info.spec_at(len)]
                    0 <= len <= m - seg_start implies {
                    &&& i64::MIN <= emitted.data.rating_info.spec_at(len) <= i64::MAX
                    &&& i64::MIN <= emitted.data.offset_info.spec_at(len) <= i64::MAX
                } by {
                    let t: int = seg_start + len;
                    if len < m - seg_start {
                        assert(i64::MIN <= seg_dual_rating_at(g, a, t) + rating_at(g, b, t)
                            <= i64::MAX);
                    } else {
                        // The exclusive end value is the value one step
                        // earlier plus the summed slope.
                        let u: int = t - 1;
                        assert(emitted.data.rating_info.spec_at(len) == emitted
                            .data.rating_info.spec_at(len - 1) + emitted.data.rating_info.delta)
                            by (nonlinear_arith)
                            requires
                                emitted.data.rating_info.spec_at(len) == emitted
                                    .data.rating_info.rating + emitted.data.rating_info.delta * len,
                                emitted.data.rating_info.spec_at(len - 1) == emitted
                                    .data.rating_info.rating + emitted.data.rating_info.delta * (
                                len - 1);
                        lemma_value_at_index(g, a, dual_rating_eval(), gia, u);
                        lemma_value_at_index(g, a, dual_delta_eval(), gia, u);
                        lemma_value_at_index(g, b, rating_eval(), gib, u);
                        lemma_value_at_index(g, b, rating_delta_eval(), gib, u);
                        lemma_mul_distrib_add(sa.data.rating_info.delta as int,
                            sb.data.delta as int, len - 1);
                        lemma_line_rebase(sa.data.rating_info.rating as int,
                            sa.data.rating_info.delta as int, begin_a as int, seg_start as int, u);
                        lemma_line_rebase(sb.data.rating as int, sb.data.delta as int,
                            begin_b as int, seg_start as int, u);
                        assert(i64::MIN <= seg_dual_rating_at(g, a, u) + rating_at(g, b, u)
                            + seg_dual_delta_at(g, a, u) + delta_at(g, b, u) <= i64::MAX);
                    }
                    assert(i64::MIN <= a[gia].data.offset_info.spec_at(t - begin_a) <= i64::MAX);
                    if sa.data.offset_info.drag {
                        lemma_line_rebase(sa.data.offset_info.offset as int, 1, begin_a as int,
                            seg_start as int, t);
                    }
                }
                lemma_duals_representable_push(out@, emitted);
                lemma_wf_full_push(g, out@, emitted);
                let old_out = out@;
                assert forall|t: int|
                    #![trigger dual_rating_at(old_out.push(emitted), t)]
                    #![trigger dual_offset_at(old_out.push(emitted), t)]
                    g <= t < m implies {
                    &&& dual_rating_at(old_out.push(emitted), t) == seg_dual_rating_at(
                        g, a, t) + rating_at(g, b, t)
                    &&& dual_offset_at(old_out.push(emitted), t) == seg_dual_offset_at(g, a, t)
                } by {
                    lemma_full_value_at_push(g, old_out, dual_rating_eval(), emitted, t);
                    lemma_full_value_at_push(g, old_out, dual_offset_eval(), emitted, t);
                    if t >= seg_start {
                        assert(emitted.data.rating_info.spec_at(t - seg_start)
                            == seg_dual_rating_at(g, a, t) + rating_at(g, b, t));
                        assert(emitted.data.offset_info.spec_at(t - seg_start)
                            == seg_dual_offset_at(g, a, t));
                    } else {
                        assert(dual_rating_at(old_out, t) == seg_dual_rating_at(g, a, t)
                            + rating_at(g, b, t));
                        assert(dual_offset_at(old_out, t) == seg_dual_offset_at(g, a, t));
                    }
                }
            }
            out.push(emitted);
            seg_start = m;
            if sa.end_point == m && sb.end_point == m {
                if ia + 1 < na {
                    proof {
                        lemma_end_le_begin(g, a, gia, na - 1);
                        assert(seg_begin(g, a, na - 1) < a[na - 1].end_point);
                        if ib + 1 >= nb {
                            assert(sb.end_point == gend);
                            assert(sa.end_point < gend);
                        }
                        assert(seg_begin(g, a, gia + 1) < a[gia + 1].end_point);
                        assert(seg_begin(g, b, gib + 1) < b[gib + 1].end_point);
                    }
                    ia = ia + 1;
                    ib = ib + 1;
                    begin_a = sa.end_point;
                    begin_b = sb.end_point;
                } else {
                    proof {
                        assert(sa.end_point == gend);
                        if ib + 1 < nb {
                            lemma_end_le_begin(g, b, gib, nb - 1);
                            assert(seg_begin(g, b, nb - 1) < b[nb - 1].end_point);
                            assert(sb.end_point < gend);
                        }
                    }
                    done = true;
                }
            } else if sa.end_point == m {
                proof {
                    if ia + 1 >= na {
                        assert(sa.end_point == gend);
                        lemma_seg_bounds(g, b, gib);
                        assert(sb.end_point <= gend);
                    }
                    assert(seg_begin(g, a, gia + 1) < a[gia + 1].end_point);
                }
                ia = ia + 1;
                begin_a = sa.end_point;
            } else {
                proof {
                    if ib + 1 >= nb {
                        assert(sb.end_point == gend);
                        lemma_seg_bounds(g, a, gia);
                        assert(sa.end_point <= gend);
                    }
                    assert(seg_begin(g, b, gib + 1) < b[gib + 1].end_point);
                }
                ib = ib + 1;
                begin_b = sb.end_point;
            }
        }
        FullSegmentIterator { start: self.start, segs: out }
    }
}


/// Over a sub-span `[b, w)` of input segment `gi` whose line stays at or
/// below `best`, the running maximum entering at `best` does not move.
#[verifier::rlimit(100)]
pub proof fn lemma_running_max_over_flat(
    s: Seq<DualFullSegment>,
    g: int,
    gi: int,
    w: int,
    best: int,
)
    requires
        wf_full(g, s),
        0 <= gi < s.len(),
        s[gi].span.start < w <= s[gi].span.end,
        running_max(s, g, s[gi].span.start as int) == best,
        s[gi].data.rating_info.spec_at(0) <= best,
        s[gi].data.rating_info.spec_at(w - s[gi].span.start - 1) <= best,
    ensures
        forall|t: int|
            s[gi].span.start <= t < w ==> #[trigger] running_max(s, g, t) == best,
{
    let b: int = s[gi].span.start as int;
    lemma_full_seg_bounds(g, s, gi);
    assert forall|t: int| b <= t < w implies #[trigger] running_max(s, g, t) == best by {
        assert forall|u: int| b < u <= t implies #[trigger] dual_rating_at(s, u) <= best by {
            lemma_full_value_at_index(g, s, dual_rating_eval(), gi, u);
            lemma_linear_between(
                s[gi].data.rating_info.rating as int,
                s[gi].data.rating_info.delta as int,
                u - b,
                w - b - 1,
            );
        }
        lemma_running_max_const(s, g, b, t, best);
    }
}

/// From `w` to the end of a rising input segment `gi`, the running maximum
/// follows the segment's rating.
#[verifier::rlimit(100)]
pub proof fn lemma_running_max_over_rise(s: Seq<DualFullSegment>, g: int, gi: int, w: int)
    requires
        wf_full(g, s),
        0 <= gi < s.len(),
        s[gi].span.start <= w < s[gi].span.end,
        s[gi].data.rating_info.delta >= 1,
        running_max(s, g, w) == dual_rating_at(s, w),
    ensures
        forall|t: int|
            w <= t < s[gi].span.end ==> #[trigger] running_max(s, g, t) == dual_rating_at(s, t),
{
    let b: int = s[gi].span.start as int;
    lemma_full_seg_bounds(g, s, gi);
    assert forall|t: int| w <= t < s[gi].span.end implies #[trigger] running_max(s, g, t)
        == dual_rating_at(s, t) by {
        assert forall|u: int| w < u <= t implies #[trigger] dual_rating_at(s, u - 1)
            <= dual_rating_at(s, u) by {
            lemma_full_value_at_index(g, s, dual_rating_eval(), gi, u - 1);
            lemma_full_value_at_index(g, s, dual_rating_eval(), gi, u);
            lemma_linear_strict(
                s[gi].data.rating_info.rating as int,
                s[gi].data.rating_info.delta as int,
                u - 1 - b,
                u - b,
            );
        }
        lemma_running_max_follows(s, g, w, t);
    }
}

/// Emitting a constant piece of the running maximum: the appended segment
/// holds value `m` and offset `tp` over `[b, w)`, where the running
/// maximum equals `m` and, if positive, was attained at a point no later
/// than `b` whose offset is `tp`.
#[verifier::rlimit(100)]
pub proof fn lemma_ltr_emit_const(
    s: Seq<DualFullSegment>,
    g: int,
    old_out: Seq<DualFullSegment>,
    b: int,
    w: int,
    m: i64,
    tp: i64,
    x: DualFullSegment,
)
    requires
        wf_full(g, old_out),
        duals_representable(old_out),
        full_end(g, old_out) == b,
        g <= b < w,
        x.span.start == b,
        x.span.end == w,
        x.data.rating_info.rating == m,
        x.data.rating_info.delta == 0,
        x.data.offset_info.offset == tp,
        x.data.offset_info.drag == false,
        forall|t: int| g <= t < b ==> #[trigger] ltr_ok(s, g, old_out, t),
        forall|t: int| b <= t < w ==> #[trigger] running_max(s, g, t) == m,
        m > 0 ==> exists|u: int|
            g <= u <= b && #[trigger] dual_rating_at(s, u) == m && dual_offset_at(s, u) == tp,
    ensures
        wf_full(g, old_out.push(x)),
        full_end(g, old_out.push(x)) == w,
        duals_representable(old_out.push(x)),
        forall|t: int| g <= t < w ==> #[trigger] ltr_ok(s, g, old_out.push(x), t),
{
    lemma_wf_full_push(g, old_out, x);
    assert forall|l: int|
        #![trigger x.data.rating_info.spec_at(l)]
        #![trigger x.data.offset_info.spec_at(l)]
        0 <= l <= w - b implies {
        &&& i64::MIN <= x.data.rating_info.spec_at(l) <= i64::MAX
        &&& i64::MIN <= x.data.offset_info.spec_at(l) <= i64::MAX
    } by {
        assert(0 * l == 0) by (nonlinear_arith);
        assert(x.data.rating_info.spec_at(l) == m);
    }
    lemma_duals_representable_push(old_out, x);
    assert forall|t: int|
        b <= t < w implies {
        &&& #[trigger] x.data.rating_info.spec_at(t - b) == running_max(s, g, t)
        &&& (running_max(s, g, t) > 0 ==> exists|u: int|
            g <= u <= t && #[trigger] dual_rating_at(s, u) == running_max(s, g, t)
                && x.data.offset_info.spec_at(t - b) == dual_offset_at(s, u))
    } by {
        assert(0 * (t - b) == 0) by (nonlinear_arith);
        assert(x.data.rating_info.spec_at(t - b) == m);
        assert(running_max(s, g, t) == m);
        if running_max(s, g, t) > 0 {
            let u0 = choose|u: int|
                g <= u <= b && #[trigger] dual_rating_at(s, u) == m && dual_offset_at(s, u) == tp;
            assert(dual_rating_at(s, u0) == running_max(s, g, t) && x.data.offset_info.spec_at(
                t - b) == dual_offset_at(s, u0));
        }
    }
    lemma_ltr_push_ok(s, g, old_out, x);
}

/// Emitting a piece that follows the input: over `[w, e)` the appended
/// segment re-anchors input segment `gi`'s lines, and the running maximum
/// equals the input's rating there.
#[verifier::rlimit(100)]
pub proof fn lemma_ltr_emit_follow(
    s: Seq<DualFullSegment>,
    g: int,
    old_out: Seq<DualFullSegment>,
    gi: int,
    w: int,
    x: DualFullSegment,
)
    requires
        wf_full(g, s),
        duals_representable(s),
        0 <= gi < s.len(),
        wf_full(g, old_out),
        duals_representable(old_out),
        full_end(g, old_out) == w,
        s[gi].span.start <= w < s[gi].span.end,
        x.span.start == w,
        x.span.end == s[gi].span.end,
        x.data.rating_info.delta == s[gi].data.rating_info.delta,
        x.data.rating_info.rating == s[gi].data.rating_info.spec_at(w - s[gi].span.start),
        x.data.offset_info.drag == s[gi].data.offset_info.drag,
        x.data.offset_info.offset == s[gi].data.offset_info.spec_at(w - s[gi].span.start),
        forall|t: int| g <= t < w ==> #[trigger] ltr_ok(s, g, old_out, t),
        forall|t: int|
            w <= t < s[gi].span.end ==> #[trigger] running_max(s, g, t) == dual_rating_at(s, t),
    ensures
        wf_full(g, old_out.push(x)),
        full_end(g, old_out.push(x)) == x.span.end,
        duals_representable(old_out.push(x)),
        forall|t: int| g <= t < x.span.end ==> #[trigger] ltr_ok(s, g, old_out.push(x), t),
{
    let sb: int = s[gi].span.start as int;
    let e: int = s[gi].span.end as int;
    let ri = s[gi].data.rating_info;
    let oi = s[gi].data.offset_info;
    if old_out.len() > 0 {
        lemma_full_seg_bounds(g, old_out, old_out.len() - 1);
    }
    assert(g <= w);
    lemma_wf_full_push(g, old_out, x);
    assert forall|l: int|
        #![trigger x.data.rating_info.spec_at(l)]
        #![trigger x.data.offset_info.spec_at(l)]
        0 <= l implies {
        &&& x.data.rating_info.spec_at(l) == ri.spec_at(l + (w - sb))
        &&& x.data.offset_info.spec_at(l) == oi.spec_at(l + (w - sb))
    } by {
        lemma_line_rebase(ri.rating as int, ri.delta as int, 0, w - sb, w - sb + l);
        if oi.drag {
            lemma_line_rebase(oi.offset as int, 1, 0, w - sb, w - sb + l);
        }
    }
    assert forall|l: int|
        #![trigger x.data.rating_info.spec_at(l)]
        #![trigger x.data.offset_info.spec_at(l)]
        0 <= l <= e - w implies {
        &&& i64::MIN <= x.data.rating_info.spec_at(l) <= i64::MAX
        &&& i64::MIN <= x.data.offset_info.spec_at(l) <= i64::MAX
    } by {
        assert(i64::MIN <= s[gi].data.rating_info.spec_at(l + (w - sb)) <= i64::MAX);
        assert(i64::MIN <= s[gi].data.offset_info.spec_at(l + (w - sb)) <= i64::MAX);
    }
    lemma_duals_representable_push(old_out, x);
    assert forall|t: int| w <= t < e implies #[trigger] x.data.rating_info.spec_at(
        t - x.span.start) == running_max(s, g, t) by {
        lemma_full_value_at_index(g, s, dual_rating_eval(), gi, t);
        assert(x.data.rating_info.spec_at(t - w) == ri.spec_at(t - sb));
        assert(running_max(s, g, t) == dual_rating_at(s, t));
    }
    assert forall|t: int|
        w <= t < e && running_max(s, g, t) > 0 implies (exists|u: int|
        g <= u <= t && #[trigger] dual_rating_at(s, u) == running_max(s, g, t)
            && x.data.offset_info.spec_at(t - x.span.start) == dual_offset_at(s, u)) by {
        lemma_full_value_at_index(g, s, dual_rating_eval(), gi, t);
        lemma_full_value_at_index(g, s, dual_offset_eval(), gi, t);
        assert(x.data.offset_info.spec_at(t - w) == oi.spec_at(t - sb));
        assert(running_max(s, g, t) == dual_rating_at(s, t));
        assert(g <= t <= t && dual_rating_at(s, t) == running_max(s, g, t)
            && x.data.offset_info.spec_at(t - x.span.start) == dual_offset_at(s, t));
    }
    lemma_ltr_push_ok(s, g, old_out, x);
}

/// The loop state of the running maximum after covering `[g, pos)`: the
/// output so far is well formed and realizes `ltr_ok`, and `best` /
/// `best_tp` record the running maximum entering `pos` and the input
/// offset where it was attained.
pub open spec fn ltr_state_ok(
    s: Seq<DualFullSegment>,
    g: int,
    out: Seq<DualFullSegment>,
    best: i64,
    best_tp: i64,
    pos: int,
) -> bool {
    &&& wf_full(g, out)
    &&& duals_representable(out)
    &&& full_end(g, out) == pos
    &&& (pos == g ==> best == 0 && best_tp == g)
    &&& (pos > g ==> best == running_max(s, g, pos - 1))
    &&& (best > 0 ==> exists|u: int|
        g <= u < pos && #[trigger] dual_rating_at(s, u) == best && dual_offset_at(s, u) == best_tp)
    &&& forall|t: int| g <= t < pos ==> #[trigger] ltr_ok(s, g, out, t)
}

/// One step of the running maximum where the whole segment stays at or
/// below the maximum seen so far: a constant piece is emitted and the
/// maximum is unchanged.
#[verifier::rlimit(100)]
fn ltr_step_keep(
    out: &mut Vec<DualFullSegment>,
    seg: DualFullSegment,
    best: i64,
    best_tp: i64,
    Ghost(s): Ghost<Seq<DualFullSegment>>,
    Ghost(g): Ghost<int>,
    Ghost(gi): Ghost<int>,
)
    requires
        wf_full(g, s),
        duals_representable(s),
        0 <= gi < s.len(),
        seg == s[gi],
        seg.span.end - seg.span.start <= i64::MAX,
        ltr_state_ok(s, g, old(out)@, best, best_tp, seg.span.start as int),
        running_max(s, g, seg.span.start as int) == spec_max(
            best as int, seg.data.rating_info.spec_at(0)),
        seg.data.rating_info.spec_at(0) <= best,
        seg.data.rating_info.spec_at(seg.span.end - seg.span.start - 1) <= best,
    ensures
        ltr_state_ok(s, g, final(out)@, best, best_tp, seg.span.end as int),
{
    let b: Point = seg.span.start;
    let e: Point = seg.span.end;
    let ghost pos: int = b as int;
    let emitted = FullSegment {
        span: PointSpan { start: b, end: e },
        data: DualInfo {
            rating_info: RatingInfo { rating: best, delta: 0 },
            offset_info: OffsetInfo { offset: best_tp, drag: false },
        },
    };
    proof {
        assert(s[gi].span.start < s[gi].span.end);
        lemma_full_seg_bounds(g, s, gi);
        assert(running_max(s, g, b as int) == best);
        lemma_running_max_over_flat(s, g, gi, e as int, best as int);
        if best > 0 {
            let u0 = choose|u: int|
                g <= u < pos && #[trigger] dual_rating_at(s, u) == best && dual_offset_at(s, u)
                    == best_tp;
            assert(g <= u0 <= b as int && dual_rating_at(s, u0) == best && dual_offset_at(s, u0)
                == best_tp);
        }
        lemma_ltr_emit_const(s, g, out@, b as int, e as int, best, best_tp, emitted);
    }
    out.push(emitted);
    proof {
        assert(running_max(s, g, e - 1) == best);
        if best > 0 {
            let u0 = choose|u: int|
                g <= u < pos && #[trigger] dual_rating_at(s, u) == best && dual_offset_at(s, u)
                    == best_tp;
            assert(g <= u0 < full_end(g, out@) && dual_rating_at(s, u0) == best && dual_offset_at(
                s, u0) == best_tp);
        }
    }
}

/// One step of the running maximum where the segment starts at or above
/// the maximum and never rises beyond its own start: the maximum moves to
/// the segment's start.
#[verifier::rlimit(100)]
fn ltr_step_start(
    out: &mut Vec<DualFullSegment>,
    seg: DualFullSegment,
    best: i64,
    best_tp: i64,
    Ghost(s): Ghost<Seq<DualFullSegment>>,
    Ghost(g): Ghost<int>,
    Ghost(gi): Ghost<int>,
) -> (r: (i64, i64))
    requires
        wf_full(g, s),
        duals_representable(s),
        0 <= gi < s.len(),
        seg == s[gi],
        seg.span.end - seg.span.start <= i64::MAX,
        ltr_state_ok(s, g, old(out)@, best, best_tp, seg.span.start as int),
        running_max(s, g, seg.span.start as int) == spec_max(
            best as int, seg.data.rating_info.spec_at(0)),
        seg.data.rating_info.spec_at(0) >= best,
        seg.data.rating_info.spec_at(0) >= seg.data.rating_info.spec_at(
            seg.span.end - seg.span.start - 1),
    ensures
        ltr_state_ok(s, g, final(out)@, r.0, r.1, seg.span.end as int),
        r.0 == seg.data.rating_info.spec_at(0),
        r.1 == seg.data.offset_info.spec_at(0),
{
    let b: Point = seg.span.start;
    let e: Point = seg.span.end;
    let sr: i64 = seg.data.rating_info.rating;
    let start_offset: i64 = seg.data.offset_info.offset;
    let emitted = FullSegment {
        span: PointSpan { start: b, end: e },
        data: DualInfo {
            rating_info: RatingInfo { rating: sr, delta: 0 },
            offset_info: OffsetInfo { offset: start_offset, drag: false },
        },
    };
    proof {
        assert(s[gi].span.start < s[gi].span.end);
        lemma_full_seg_bounds(g, s, gi);
        lemma_full_value_at_index(g, s, dual_rating_eval(), gi, b as int);
        lemma_full_value_at_index(g, s, dual_offset_eval(), gi, b as int);
        assert(dual_rating_at(s, b as int) == sr);
        assert(dual_offset_at(s, b as int) == start_offset);
        assert(running_max(s, g, b as int) == sr);
        lemma_running_max_over_flat(s, g, gi, e as int, sr as int);
        lemma_ltr_emit_const(s, g, out@, b as int, e as int, sr, start_offset, emitted);
    }
    out.push(emitted);
    proof {
        assert(running_max(s, g, e - 1) == sr);
        if sr > 0 {
            assert(g <= b < full_end(g, out@) && dual_rating_at(s, b as int) == sr
                && dual_offset_at(s, b as int) == start_offset);
        }
    }
    (sr, start_offset)
}

/// One step of the running maximum where the segment starts at or above
/// the maximum and rises: the maximum follows the segment to its end.
#[verifier::rlimit(100)]
fn ltr_step_rise(
    out: &mut Vec<DualFullSegment>,
    seg: DualFullSegment,
    best: i64,
    best_tp: i64,
    Ghost(s): Ghost<Seq<DualFullSegment>>,
    Ghost(g): Ghost<int>,
    Ghost(gi): Ghost<int>,
) -> (r: (i64, i64))
    requires
        wf_full(g, s),
        duals_representable(s),
        0 <= gi < s.len(),
        seg == s[gi],
        seg.span.end - seg.span.start <= i64::MAX,
        ltr_state_ok(s, g, old(out)@, best, best_tp, seg.span.start as int),
        running_max(s, g, seg.span.start as int) == spec_max(
            best as int, seg.data.rating_info.spec_at(0)),
        seg.data.rating_info.spec_at(0) >= best,
        seg.data.rating_info.spec_at(0) < seg.data.rating_info.spec_at(
            seg.span.end - seg.span.start - 1),
    ensures
        ltr_state_ok(s, g, final(out)@, r.0, r.1, seg.span.end as int),
        r.0 == seg.data.rating_info.spec_at(seg.span.end - seg.span.start - 1),
        r.1 == seg.data.offset_info.spec_at(seg.span.end - seg.span.start - 1),
{
    let b: Point = seg.span.start;
    let e: Point = seg.span.end;
    let ghost d: int = seg.data.rating_info.delta as int;
    proof {
        assert(s[gi].span.start < s[gi].span.end);
        lemma_full_seg_bounds(g, s, gi);
        assert(i64::MIN <= s[gi].data.rating_info.spec_at(e - b - 1) <= i64::MAX);
        assert(i64::MIN <= s[gi].data.offset_info.spec_at(e - b - 1) <= i64::MAX);
    }
    let len: i64 = e - b;
    let sr: i64 = seg.data.rating_info.rating;
    let er: i64 = add_mul(sr, seg.data.rating_info.delta, len - 1);
    let end_offset: i64 = seg.data.offset_info.advanced_offset(len - 1);
    proof {
        lemma_linear_between(sr as int, d, 0, len - 1);
        assert(d >= 1);
        lemma_full_value_at_index(g, s, dual_rating_eval(), gi, b as int);
        lemma_full_value_at_index(g, s, dual_rating_eval(), gi, e - 1);
        lemma_full_value_at_index(g, s, dual_offset_eval(), gi, e - 1);
        assert(dual_rating_at(s, b as int) == sr);
        assert(running_max(s, g, b as int) == sr);
        lemma_running_max_over_rise(s, g, gi, b as int);
        assert(seg.data.rating_info.spec_at(0) == sr);
        assert(seg.data.offset_info.spec_at(0) == seg.data.offset_info.offset);
        lemma_ltr_emit_follow(s, g, out@, gi, b as int, seg);
    }
    out.push(seg);
    proof {
        assert(dual_rating_at(s, e - 1) == er);
        assert(running_max(s, g, e - 1) == er);
        if er > 0 {
            assert(g <= e - 1 < full_end(g, out@) && dual_rating_at(s, e - 1) == er
                && dual_offset_at(s, e - 1) == end_offset);
        }
    }
    (er, end_offset)
}

/// One step of the running maximum where the segment starts below the
/// maximum and rises above it: a constant piece is emitted up to the first
/// point past the crossing, then the segment's tail is followed.
#[verifier::rlimit(100)]
fn ltr_step_cross(
    out: &mut Vec<DualFullSegment>,
    seg: DualFullSegment,
    best: i64,
    best_tp: i64,
    Ghost(s): Ghost<Seq<DualFullSegment>>,
    Ghost(g): Ghost<int>,
    Ghost(gi): Ghost<int>,
) -> (r: (i64, i64))
    requires
        wf_full(g, s),
        duals_representable(s),
        0 <= gi < s.len(),
        seg == s[gi],
        seg.span.end - seg.span.start <= i64::MAX,
        ltr_state_ok(s, g, old(out)@, best, best_tp, seg.span.start as int),
        running_max(s, g, seg.span.start as int) == spec_max(
            best as int, seg.data.rating_info.spec_at(0)),
        seg.data.rating_info.spec_at(0) < best,
        seg.data.rating_info.spec_at(seg.span.end - seg.span.start - 1) > best,
    ensures
        ltr_state_ok(s, g, final(out)@, r.0, r.1, seg.span.end as int),
        r.0 == seg.data.rating_info.spec_at(seg.span.end - seg.span.start - 1),
        r.1 == seg.data.offset_info.spec_at(seg.span.end - seg.span.start - 1),
{
    let b: Point = seg.span.start;
    let e: Point = seg.span.end;
    let ghost pos: int = b as int;
    let ghost d: int = seg.data.rating_info.delta as int;
    proof {
        assert(s[gi].span.start < s[gi].span.end);
        lemma_full_seg_bounds(g, s, gi);
        assert(i64::MIN <= s[gi].data.rating_info.spec_at(e - b - 1) <= i64::MAX);
        assert(i64::MIN <= s[gi].data.offset_info.spec_at(e - b - 1) <= i64::MAX);
    }
    let len: i64 = e - b;
    let sr: i64 = seg.data.rating_info.rating;
    let er: i64 = add_mul(sr, seg.data.rating_info.delta, len - 1);
    let end_offset: i64 = seg.data.offset_info.advanced_offset(len - 1);
    proof {
        assert(sr < best && er > best);
        lemma_linear_between(sr as int, d, 0, len - 1);
        assert(d >= 1);
        assert(running_max(s, g, b as int) == best);
    }
    let diff: i128 = best as i128 - sr as i128;
    let q128: i128 = crate::rating_type::div_floor_i128(diff, seg.data.rating_info.delta as i128);
    proof {
        assert(0 <= q128 && q128 + 1 < len) by (nonlinear_arith)
            requires
                d >= 1,
                d == seg.data.rating_info.delta as int,
                d * q128 <= diff < d * (q128 + 1),
                diff == best - sr,
                sr < best,
                er == sr + d * (len - 1),
                er > best;
    }
    let switch: i64 = (q128 as i64) + 1;
    let w: Point = b + switch;
    let ghost gw: int = w as int;
    let emitted1 = FullSegment {
        span: PointSpan { start: b, end: w },
        data: DualInfo {
            rating_info: RatingInfo { rating: best, delta: 0 },
            offset_info: OffsetInfo { offset: best_tp, drag: false },
        },
    };
    proof {
        assert(s[gi].data.rating_info.spec_at(gw - b - 1) == sr + d * (switch - 1));
        assert(sr + d * (switch - 1) <= best) by (nonlinear_arith)
            requires
                d >= 1,
                d * q128 <= diff,
                diff == best - sr,
                switch - 1 == q128;
        lemma_running_max_over_flat(s, g, gi, gw, best as int);
        if best > 0 {
            let u0 = choose|u: int|
                g <= u < pos && #[trigger] dual_rating_at(s, u) == best && dual_offset_at(s, u)
                    == best_tp;
            assert(g <= u0 <= b as int && dual_rating_at(s, u0) == best && dual_offset_at(s, u0)
                == best_tp);
        }
        lemma_ltr_emit_const(s, g, out@, b as int, gw, best, best_tp, emitted1);
    }
    out.push(emitted1);
    proof {
        assert(i64::MIN <= s[gi].data.rating_info.spec_at(switch as int) <= i64::MAX);
        assert(i64::MIN <= s[gi].data.offset_info.spec_at(switch as int) <= i64::MAX);
    }
    let adv_r: i64 = add_mul(sr, seg.data.rating_info.delta, switch);
    let adv_off: OffsetInfo = seg.data.offset_info.advanced(switch);
    let emitted2 = FullSegment {
        span: PointSpan { start: w, end: e },
        data: DualInfo {
            rating_info: RatingInfo { rating: adv_r, delta: seg.data.rating_info.delta },
            offset_info: adv_off,
        },
    };
    proof {
        lemma_full_value_at_index(g, s, dual_rating_eval(), gi, gw);
        assert(dual_rating_at(s, gw) == sr + d * switch);
        assert(sr + d * switch > best) by (nonlinear_arith)
            requires
                d >= 1,
                diff < d * (q128 + 1),
                diff == best - sr,
                switch == q128 + 1;
        assert(running_max(s, g, gw - 1) == best);
        assert(running_max(s, g, gw) == spec_max(
            running_max(s, g, gw - 1), dual_rating_at(s, gw)));
        assert(running_max(s, g, gw) == dual_rating_at(s, gw));
        lemma_running_max_over_rise(s, g, gi, gw);
        lemma_ltr_emit_follow(s, g, out@, gi, gw, emitted2);
    }
    out.push(emitted2);
    proof {
        lemma_full_value_at_index(g, s, dual_rating_eval(), gi, e - 1);
        lemma_full_value_at_index(g, s, dual_offset_eval(), gi, e - 1);
        assert(dual_rating_at(s, e - 1) == er);
        assert(running_max(s, g, e - 1) == er);
        if er > 0 {
            assert(g <= e - 1 < full_end(g, out@) && dual_rating_at(s, e - 1) == er
                && dual_offset_at(s, e - 1) == end_offset);
        }
    }
    (er, end_offset)
}

impl FullSegmentIterator<DualInfo> {
    /// Running left-to-right maximum of a dual signal: at every point the
    /// output rating is the largest input rating seen so far (at least
    /// zero), and the carried offset is the input's offset at a point that
    /// attains that maximum.
    #[verifier::rlimit(100)]
    pub fn left_to_right_maximum(self) -> (r: DualFullSegmentIterator)
        requires
            self.wf(),
            duals_representable(self.segs@),
            self.spec_end() - self.start <= i64::MAX,
        ensures
            r.start == self.start,
            r.wf(),
            r.spec_end() == self.spec_end(),
            duals_representable(r.segs@),
            forall|t: int|
                self.start <= t < self.spec_end() ==> #[trigger] ltr_ok(
                    self.segs@, self.start as int, r.segs@, t),
    {
        let ghost g: int = self.start as int;
        let ghost s: Seq<DualFullSegment> = self.segs@;
        let ghost gend: int = self.spec_end();
        let n: usize = self.segs.len();
        let mut out: Vec<DualFullSegment> = Vec::new();
        let mut best: i64 = 0;
        let mut best_tp: Point = self.start;
        let mut i: usize = 0;
        proof {
            if n > 0 {
                crate::segments::lemma_full_first_start(g, s);
            }
        }
        while i < n
            invariant
                n == s.len(),
                s == self.segs@,
                g == self.start as int,
                gend == full_end(g, s),
                gend - g <= i64::MAX,
                wf_full(g, s),
                duals_representable(s),
                0 <= i <= n,
                ltr_state_ok(s, g, out@, best, best_tp, if (i as int) < s.len() {
                    s[i as int].span.start as int
                } else {
                    gend
                }),
            decreases n - i,
        {
            let ghost gi: int = i as int;
            let seg = self.segs[i];
            let b: Point = seg.span.start;
            let e: Point = seg.span.end;
            proof {
                assert(s[gi].span.start < s[gi].span.end);
                lemma_full_seg_bounds(g, s, gi);
                assert(i64::MIN <= s[gi].data.rating_info.spec_at(e - b - 1) <= i64::MAX);
                lemma_full_value_at_index(g, s, dual_rating_eval(), gi, b as int);
                assert(dual_rating_at(s, b as int) == seg.data.rating_info.spec_at(0));
                if b == g {
                    assert(running_max(s, g, b as int) == spec_max(0, dual_rating_at(s, b as int)));
                } else {
                    assert(running_max(s, g, b as int) == spec_max(
                        running_max(s, g, b - 1), dual_rating_at(s, b as int)));
                }
                assert(running_max(s, g, b as int) == spec_max(
                    best as int, seg.data.rating_info.spec_at(0)));
            }
            let len: i64 = e - b;
            let sr: i64 = seg.data.rating_info.rating;
            let er: i64 = add_mul(sr, seg.data.rating_info.delta, len - 1);
            if sr <= best && er <= best {
                ltr_step_keep(&mut out, seg, best, best_tp, Ghost(s), Ghost(g), Ghost(gi));
            } else if sr >= best && sr >= er {
                let stepped = ltr_step_start(
                    &mut out, seg, best, best_tp, Ghost(s), Ghost(g), Ghost(gi));
                best = stepped.0;
                best_tp = stepped.1;
            } else if sr >= best {
                let stepped = ltr_step_rise(
                    &mut out, seg, best, best_tp, Ghost(s), Ghost(g), Ghost(gi));
                best = stepped.0;
                best_tp = stepped.1;
            } else {
                proof {
                    assert(sr < best);
                    assert(er > best);
                }
                let stepped = ltr_step_cross(
                    &mut out, seg, best, best_tp, Ghost(s), Ghost(g), Ghost(gi));
                best = stepped.0;
                best_tp = stepped.1;
            }
            proof {
                if gi + 1 < n {
                    assert(s[gi + 1].span.start == s[gi].span.end);
                }
            }
            i = i + 1;
        }
        FullSegmentIterator { start: self.start, segs: out }
    }
}


/// A linear function that dominates another at both ends of a span
/// dominates it everywhere on the span.
pub proof fn lemma_linear_dominates(r1: int, d1: int, r2: int, d2: int, l: int, ll: int)
    by (nonlinear_arith)
    requires
        0 <= l <= ll,
        r1 >= r2,
        r1 + d1 * ll >= r2 + d2 * ll,
    ensures
        r1 + d1 * l >= r2 + d2 * l,
{
}

/// What the pointwise maximum guarantees at one point `t`: the output
/// rating is the larger input rating, and the output offset is one of the
/// inputs' offsets — the winner's, where one side is strictly larger.  On
/// a tie the first signal's offset is carried, unless the second signal
/// strictly exceeds the first somewhere (the emitted piece then belongs to
/// the second signal); with the first signal nowhere beaten, every tie
/// carries the first signal's data.
pub open spec fn max_ok(
    a: Seq<DualSegment>,
    b: Seq<DualSegment>,
    g: int,
    out: Seq<DualFullSegment>,
    t: int,
) -> bool {
    &&& dual_rating_at(out, t) == spec_max(
        seg_dual_rating_at(g, a, t),
        seg_dual_rating_at(g, b, t),
    )
    &&& (dual_offset_at(out, t) == seg_dual_offset_at(g, a, t) || dual_offset_at(out, t)
        == seg_dual_offset_at(g, b, t))
    &&& (seg_dual_rating_at(g, a, t) > seg_dual_rating_at(g, b, t) ==> dual_offset_at(out, t)
        == seg_dual_offset_at(g, a, t))
    &&& (seg_dual_rating_at(g, b, t) > seg_dual_rating_at(g, a, t) ==> dual_offset_at(out, t)
        == seg_dual_offset_at(g, b, t))
    &&& (seg_dual_rating_at(g, a, t) == seg_dual_rating_at(g, b, t) && dual_offset_at(out, t)
        != seg_dual_offset_at(g, a, t) ==> exists|u: int|
        #[trigger] seg_dual_rating_at(g, b, u) > seg_dual_rating_at(g, a, u))
}

/// The spec's tie rule, read off the pointwise guarantee: where the first
/// signal is nowhere strictly beaten, a tie always carries the first
/// signal's offset.
pub proof fn lemma_max_tie_prefers_first(
    a: Seq<DualSegment>,
    b: Seq<DualSegment>,
    g: int,
    out: Seq<DualFullSegment>,
    t: int,
)
    requires
        max_ok(a, b, g, out, t),
        forall|u: int| #[trigger] seg_dual_rating_at(g, b, u) <= seg_dual_rating_at(g, a, u),
        seg_dual_rating_at(g, a, t) == seg_dual_rating_at(g, b, t),
    ensures
        dual_offset_at(out, t) == seg_dual_offset_at(g, a, t),
{
    if dual_offset_at(out, t) != seg_dual_offset_at(g, a, t) {
        let u = choose|u: int| #[trigger] seg_dual_rating_at(g, b, u) > seg_dual_rating_at(
            g, a, u);
        assert(seg_dual_rating_at(g, b, u) <= seg_dual_rating_at(g, a, u));
    }
}

/// Appending one dominated piece of the pointwise maximum: the emitted
/// segment re-anchors the winning side's lines over its span, where that
/// side's rating is at least the other's.
#[verifier::rlimit(100)]
proof fn emit_max_proofs(
    a: Seq<DualSegment>,
    b: Seq<DualSegment>,
    g: int,
    old_out: Seq<DualFullSegment>,
    x: DualFullSegment,
    gia: int,
    gib: int,
    winner_first: bool,
)
    requires
        wf_seq(g, a),
        wf_seq(g, b),
        dual_segs_representable(g, a),
        dual_segs_representable(g, b),
        0 <= gia < a.len(),
        0 <= gib < b.len(),
        seg_begin(g, a, gia) <= x.span.start,
        seg_begin(g, b, gib) <= x.span.start,
        x.span.end <= a[gia].end_point,
        x.span.end <= b[gib].end_point,
        winner_first ==> {
            &&& x.data.rating_info.delta == a[gia].data.rating_info.delta
            &&& x.data.rating_info.rating == a[gia].data.rating_info.spec_at(
                x.span.start - seg_begin(g, a, gia))
            &&& x.data.offset_info.drag == a[gia].data.offset_info.drag
            &&& x.data.offset_info.offset == a[gia].data.offset_info.spec_at(
                x.span.start - seg_begin(g, a, gia))
        },
        !winner_first ==> {
            &&& x.data.rating_info.delta == b[gib].data.rating_info.delta
            &&& x.data.rating_info.rating == b[gib].data.rating_info.spec_at(
                x.span.start - seg_begin(g, b, gib))
            &&& x.data.offset_info.drag == b[gib].data.offset_info.drag
            &&& x.data.offset_info.offset == b[gib].data.offset_info.spec_at(
                x.span.start - seg_begin(g, b, gib))
        },
        winner_first ==> forall|t: int|
            x.span.start <= t < x.span.end ==> #[trigger] seg_dual_rating_at(g, a, t)
                >= seg_dual_rating_at(g, b, t),
        !winner_first ==> forall|t: int|
            x.span.start <= t < x.span.end ==> #[trigger] seg_dual_rating_at(g, b, t)
                >= seg_dual_rating_at(g, a, t),
        !winner_first ==> exists|u: int|
            #[trigger] seg_dual_rating_at(g, b, u) > seg_dual_rating_at(g, a, u),
        wf_full(g, old_out),
        duals_representable(old_out),
        full_end(g, old_out) == x.span.start,
        g <= x.span.start < x.span.end,
        forall|t: int| g <= t < x.span.start ==> #[trigger] max_ok(a, b, g, old_out, t),
    ensures
        wf_full(g, old_out.push(x)),
        full_end(g, old_out.push(x)) == x.span.end,
        duals_representable(old_out.push(x)),
        forall|t: int| g <= t < x.span.end ==> #[trigger] max_ok(a, b, g, old_out.push(x), t),
{
    let p: int = x.span.start as int;
    let ba: int = seg_begin(g, a, gia);
    let bb: int = seg_begin(g, b, gib);
    lemma_wf_full_push(g, old_out, x);
    // The emitted lines equal the winning side's lines.
    if winner_first {
        assert forall|l: int| 0 <= l implies {
            &&& #[trigger] x.data.rating_info.spec_at(l) == a[gia].data.rating_info.spec_at(
                l + (p - ba))
            &&& x.data.offset_info.spec_at(l) == a[gia].data.offset_info.spec_at(l + (p - ba))
        } by {
            lemma_line_rebase(a[gia].data.rating_info.rating as int,
                a[gia].data.rating_info.delta as int, 0, p - ba, p - ba + l);
            if a[gia].data.offset_info.drag {
                lemma_line_rebase(a[gia].data.offset_info.offset as int, 1, 0, p - ba, p - ba + l);
            }
        }
    } else {
        assert forall|l: int| 0 <= l implies {
            &&& #[trigger] x.data.rating_info.spec_at(l) == b[gib].data.rating_info.spec_at(
                l + (p - bb))
            &&& x.data.offset_info.spec_at(l) == b[gib].data.offset_info.spec_at(l + (p - bb))
        } by {
            lemma_line_rebase(b[gib].data.rating_info.rating as int,
                b[gib].data.rating_info.delta as int, 0, p - bb, p - bb + l);
            if b[gib].data.offset_info.drag {
                lemma_line_rebase(b[gib].data.offset_info.offset as int, 1, 0, p - bb, p - bb + l);
            }
        }
    }
    assert forall|l: int|
        #![trigger x.data.rating_info.spec_at(l)]
        #![trigger x.data.offset_info.spec_at(l)]
        0 <= l <= x.span.end - x.span.start implies {
        &&& i64::MIN <= x.data.rating_info.spec_at(l) <= i64::MAX
        &&& i64::MIN <= x.data.offset_info.spec_at(l) <= i64::MAX
    } by {
        if winner_first {
            assert(i64::MIN <= a[gia].data.rating_info.spec_at(l + (p - ba)) <= i64::MAX);
            assert(i64::MIN <= a[gia].data.offset_info.spec_at(l + (p - ba)) <= i64::MAX);
        } else {
            assert(i64::MIN <= b[gib].data.rating_info.spec_at(l + (p - bb)) <= i64::MAX);
            assert(i64::MIN <= b[gib].data.offset_info.spec_at(l + (p - bb)) <= i64::MAX);
        }
    }
    lemma_duals_representable_push(old_out, x);
    assert forall|t: int|
        p <= t < x.span.end implies {
        &&& #[trigger] x.data.rating_info.spec_at(t - p) == spec_max(
            seg_dual_rating_at(g, a, t), seg_dual_rating_at(g, b, t))
        &&& (x.data.offset_info.spec_at(t - p) == seg_dual_offset_at(g, a, t)
            || x.data.offset_info.spec_at(t - p) == seg_dual_offset_at(g, b, t))
        &&& (seg_dual_rating_at(g, a, t) > seg_dual_rating_at(g, b, t)
            ==> x.data.offset_info.spec_at(t - p) == seg_dual_offset_at(g, a, t))
        &&& (seg_dual_rating_at(g, b, t) > seg_dual_rating_at(g, a, t)
            ==> x.data.offset_info.spec_at(t - p) == seg_dual_offset_at(g, b, t))
        &&& (seg_dual_rating_at(g, a, t) == seg_dual_rating_at(g, b, t)
            && x.data.offset_info.spec_at(t - p) != seg_dual_offset_at(g, a, t) ==> exists|u: int|
            #[trigger] seg_dual_rating_at(g, b, u) > seg_dual_rating_at(g, a, u))
    } by {
        lemma_value_at_index(g, a, dual_rating_eval(), gia, t);
        lemma_value_at_index(g, b, dual_rating_eval(), gib, t);
        lemma_value_at_index(g, a, dual_offset_eval(), gia, t);
        lemma_value_at_index(g, b, dual_offset_eval(), gib, t);
        if winner_first {
            assert(x.data.rating_info.spec_at(t - p) == a[gia].data.rating_info.spec_at(t - ba));
            assert(x.data.offset_info.spec_at(t - p) == a[gia].data.offset_info.spec_at(t - ba));
            assert(seg_dual_rating_at(g, a, t) >= seg_dual_rating_at(g, b, t));
        } else {
            assert(x.data.rating_info.spec_at(t - p) == b[gib].data.rating_info.spec_at(t - bb));
            assert(x.data.offset_info.spec_at(t - p) == b[gib].data.offset_info.spec_at(t - bb));
            assert(seg_dual_rating_at(g, b, t) >= seg_dual_rating_at(g, a, t));
        }
    }
    assert forall|t: int| g <= t < x.span.end implies #[trigger] max_ok(
        a, b, g, old_out.push(x), t) by {
        lemma_full_value_at_push(g, old_out, dual_rating_eval(), x, t);
        lemma_full_value_at_push(g, old_out, dual_offset_eval(), x, t);
        if t < p {
            assert(max_ok(a, b, g, old_out, t));
        } else {
            assert(x.data.rating_info.spec_at(t - p) == spec_max(
                seg_dual_rating_at(g, a, t), seg_dual_rating_at(g, b, t)));
        }
    }
}

/// Pointwise maximum of two dual signals sharing the same start and end:
/// at every point the output carries the larger rating and the winning
/// side's offset; ties prefer the first signal's data wherever the first
/// signal is nowhere strictly beaten.
#[verifier::rlimit(100)]
pub fn combined_maximum_of_dual_iterators(iter1: DualIterator, iter2: DualIterator) -> (r:
    DualFullSegmentIterator)
    requires
        iter1.wf(),
        iter2.wf(),
        iter1.start == iter2.start,
        iter1.segs@.len() > 0,
        iter2.segs@.len() > 0,
        iter1.spec_end() == iter2.spec_end(),
        iter1.spec_end() - iter1.start <= i64::MAX,
        dual_segs_representable(iter1.start as int, iter1.segs@),
        dual_segs_representable(iter2.start as int, iter2.segs@),
    ensures
        r.start == iter1.start,
        r.wf(),
        r.spec_end() == iter1.spec_end(),
        duals_representable(r.segs@),
        forall|t: int|
            iter1.start <= t < iter1.spec_end() ==> #[trigger] max_ok(
                iter1.segs@, iter2.segs@, iter1.start as int, r.segs@, t),
{
    let ghost g: int = iter1.start as int;
    let ghost a: Seq<DualSegment> = iter1.segs@;
    let ghost b: Seq<DualSegment> = iter2.segs@;
    let ghost gend: int = iter1.spec_end();
    let start: Point = iter1.start;
    let na: usize = iter1.segs.len();
    let nb: usize = iter2.segs.len();
    let mut out: Vec<DualFullSegment> = Vec::new();
    let mut ia: usize = 0;
    let mut ib: usize = 0;
    let mut begin_a: Point = start;
    let mut begin_b: Point = start;
    let mut seg_start: Point = start;
    let mut done: bool = false;
    proof {
        assert(seg_begin(g, a, 0) < a[0].end_point);
        assert(seg_begin(g, b, 0) < b[0].end_point);
        lemma_seg_bounds(g, a, 0);
        lemma_seg_bounds(g, b, 0);
    }
    while !done
        invariant
            na == a.len(),
            nb == b.len(),
            a == iter1.segs@,
            b == iter2.segs@,
            g == iter1.start as int,
            g == start as int,
            na > 0,
            nb > 0,
            gend == seq_end(g, a),
            gend == seq_end(g, b),
            gend - g <= i64::MAX,
            wf_seq(g, a),
            wf_seq(g, b),
            dual_segs_representable(g, a),
            dual_segs_representable(g, b),
            0 <= ia < na,
            0 <= ib < nb,
            begin_a == seg_begin(g, a, ia as int),
            begin_b == seg_begin(g, b, ib as int),
            !done ==> begin_a <= seg_start < a[ia as int].end_point,
            !done ==> begin_b <= seg_start < b[ib as int].end_point,
            g <= seg_start <= gend,
            wf_full(g, out@),
            full_end(g, out@) == seg_start,
            duals_representable(out@),
            forall|t: int| g <= t < seg_start ==> #[trigger] max_ok(a, b, g, out@, t),
            done ==> seg_start == gend,
        decreases (na - ia) + (nb - ib) + if done { 0int } else { 1int },
    {
        let ghost gia: int = ia as int;
        let ghost gib: int = ib as int;
        let sa = iter1.segs[ia];
        let sb = iter2.segs[ib];
        proof {
            assert(seg_begin(g, a, gia) < a[gia].end_point);
            assert(seg_begin(g, b, gib) < b[gib].end_point);
            lemma_seg_bounds(g, a, gia);
            lemma_seg_bounds(g, b, gib);
        }
        let m: Point = if sa.end_point < sb.end_point {
            sa.end_point
        } else {
            sb.end_point
        };
        let ghost len: int = m - seg_start;
        // Both lines over the emitted piece, re-anchored at `seg_start`.
        proof {
            assert(i64::MIN <= sa.data.rating_info.spec_at(seg_start - begin_a) <= i64::MAX);
            assert(i64::MIN <= sa.data.offset_info.spec_at(seg_start - begin_a) <= i64::MAX);
            assert(i64::MIN <= sb.data.rating_info.spec_at(seg_start - begin_b) <= i64::MAX);
            assert(i64::MIN <= sb.data.offset_info.spec_at(seg_start - begin_b) <= i64::MAX);
            assert(i64::MIN <= sa.data.rating_info.spec_at(m - 1 - begin_a) <= i64::MAX);
            assert(i64::MIN <= sb.data.rating_info.spec_at(m - 1 - begin_b) <= i64::MAX);
            assert forall|t: int| seg_start <= t < m implies {
                &&& #[trigger] seg_dual_rating_at(g, a, t) == sa.data.rating_info.spec_at(
                    t - begin_a)
                &&& seg_dual_rating_at(g, b, t) == sb.data.rating_info.spec_at(t - begin_b)
                &&& seg_dual_offset_at(g, a, t) == sa.data.offset_info.spec_at(t - begin_a)
                &&& seg_dual_offset_at(g, b, t) == sb.data.offset_info.spec_at(t - begin_b)
            } by {
                lemma_value_at_index(g, a, dual_rating_eval(), gia, t);
                lemma_value_at_index(g, b, dual_rating_eval(), gib, t);
                lemma_value_at_index(g, a, dual_offset_eval(), gia, t);
                lemma_value_at_index(g, b, dual_offset_eval(), gib, t);
            }
        }
        let r1s: i64 = add_mul(sa.data.rating_info.rating, sa.data.rating_info.delta,
            seg_start - begin_a);
        let r2s: i64 = add_mul(sb.data.rating_info.rating, sb.data.rating_info.delta,
            seg_start - begin_b);
        let r1e: i64 = add_mul(sa.data.rating_info.rating, sa.data.rating_info.delta,
            m - 1 - begin_a);
        let r2e: i64 = add_mul(sb.data.rating_info.rating, sb.data.rating_info.delta,
            m - 1 - begin_b);
        proof {
            lemma_line_rebase(sa.data.rating_info.rating as int, sa.data.rating_info.delta as int,
                begin_a as int, seg_start as int, m - 1);
            lemma_line_rebase(sb.data.rating_info.rating as int, sb.data.rating_info.delta as int,
                begin_b as int, seg_start as int, m - 1);
            assert(r1e == r1s + sa.data.rating_info.delta * (len - 1));
            assert(r2e == r2s + sb.data.rating_info.delta * (len - 1));
        }
        let adv1: DualInfo = DualInfo {
            rating_info: RatingInfo { rating: r1s, delta: sa.data.rating_info.delta },
            offset_info: OffsetInfo {
                offset: sa.data.offset_info.advanced_offset(seg_start - begin_a),
                drag: sa.data.offset_info.drag,
            },
        };
        let adv2: DualInfo = DualInfo {
            rating_info: RatingInfo { rating: r2s, delta: sb.data.rating_info.delta },
            offset_info: OffsetInfo {
                offset: sb.data.offset_info.advanced_offset(seg_start - begin_b),
                drag: sb.data.offset_info.drag,
            },
        };
        proof {
            // The re-anchored lines agree with the inputs over the piece
            // and beyond.
            assert forall|l: int| 0 <= l implies {
                &&& #[trigger] adv1.rating_info.spec_at(l) == sa.data.rating_info.spec_at(
                    l + (seg_start - begin_a))
                &&& adv1.offset_info.spec_at(l) == sa.data.offset_info.spec_at(
                    l + (seg_start - begin_a))
                &&& adv2.rating_info.spec_at(l) == sb.data.rating_info.spec_at(
                    l + (seg_start - begin_b))
                &&& adv2.offset_info.spec_at(l) == sb.data.offset_info.spec_at(
                    l + (seg_start - begin_b))
            } by {
                lemma_line_rebase(sa.data.rating_info.rating as int,
                    sa.data.rating_info.delta as int, 0, seg_start - begin_a,
                    seg_start - begin_a + l);
                lemma_line_rebase(sb.data.rating_info.rating as int,
                    sb.data.rating_info.delta as int, 0, seg_start - begin_b,
                    seg_start - begin_b + l);
                if sa.data.offset_info.drag {
                    lemma_line_rebase(sa.data.offset_info.offset as int, 1, 0,
                        seg_start - begin_a, seg_start - begin_a + l);
                }
                if sb.data.offset_info.drag {
                    lemma_line_rebase(sb.data.offset_info.offset as int, 1, 0,
                        seg_start - begin_b, seg_start - begin_b + l);
                }
            }
        }
        if r1s >= r2s && r1e >= r2e {
            // The first signal dominates over the whole piece.
            let emitted = FullSegment { span: PointSpan { start: seg_start, end: m }, data: adv1 };
            proof {
                assert forall|t: int| seg_start <= t < m implies #[trigger] seg_dual_rating_at(
                    g, a, t) >= seg_dual_rating_at(g, b, t) by {
                    lemma_line_rebase(sa.data.rating_info.rating as int,
                        sa.data.rating_info.delta as int, begin_a as int, seg_start as int, t);
                    lemma_line_rebase(sb.data.rating_info.rating as int,
                        sb.data.rating_info.delta as int, begin_b as int, seg_start as int, t);
                    lemma_linear_dominates(r1s as int, sa.data.rating_info.delta as int,
                        r2s as int, sb.data.rating_info.delta as int, t - seg_start, len - 1);
                }
                emit_max_proofs(a, b, g, out@, emitted, gia, gib, true);
            }
            out.push(emitted);
        } else if r2s >= r1s && r2e >= r1e {
            // The second signal dominates over the whole piece.
            let emitted = FullSegment { span: PointSpan { start: seg_start, end: m }, data: adv2 };
            proof {
                assert forall|t: int| seg_start <= t < m implies #[trigger] seg_dual_rating_at(
                    g, b, t) >= seg_dual_rating_at(g, a, t) by {
                    lemma_line_rebase(sa.data.rating_info.rating as int,
                        sa.data.rating_info.delta as int, begin_a as int, seg_start as int, t);
                    lemma_line_rebase(sb.data.rating_info.rating as int,
                        sb.data.rating_info.delta as int, begin_b as int, seg_start as int, t);
                    lemma_linear_dominates(r2s as int, sb.data.rating_info.delta as int,
                        r1s as int, sa.data.rating_info.delta as int, t - seg_start, len - 1);
                }
                // The first side is strictly beaten at one of the piece's
                // ends, which justifies carrying the second side on ties.
                if r1s < r2s {
                    assert(seg_dual_rating_at(g, b, seg_start as int) > seg_dual_rating_at(
                        g, a, seg_start as int));
                } else {
                    assert(seg_dual_rating_at(g, b, m - 1) > seg_dual_rating_at(g, a, m - 1));
                }
                emit_max_proofs(a, b, g, out@, emitted, gia, gib, false);
            }
            out.push(emitted);
        } else {
            // The lines cross inside the piece: find the first point where
            // the side that wins at the end is strictly better.
            let d1: i64 = sa.data.rating_info.delta;
            let d2: i64 = sb.data.rating_info.delta;
            let ghost dd: int = d1 - d2;
            let num: i128 = r2s as i128 - r1s as i128;
            let den: i128 = d1 as i128 - d2 as i128;
            proof {
                assert(den != 0) by (nonlinear_arith)
                    requires
                        den == d1 - d2,
                        !(r1s >= r2s && r1s + d1 * (len - 1) >= r2s + d2 * (len - 1)),
                        !(r2s >= r1s && r2s + d2 * (len - 1) >= r1s + d1 * (len - 1)),
                        r1e == r1s + d1 * (len - 1),
                        r2e == r2s + d2 * (len - 1);
            }
            let q: i128 = crate::rating_type::div_floor_i128(num, den);
            let ghost gq: int = q as int;
            proof {
                assert(0 < gq + 1 < len) by (nonlinear_arith)
                    requires
                        den == d1 - d2,
                        den != 0,
                        num == r2s - r1s,
                        den > 0 ==> den * gq <= num < den * (gq + 1),
                        den < 0 ==> den * (gq + 1) < num <= den * gq,
                        !(r1s >= r2s && r1e >= r2e),
                        !(r2s >= r1s && r2e >= r1e),
                        r1e == r1s + d1 * (len - 1),
                        r2e == r2s + d2 * (len - 1),
                        len >= 1;
            }
            let spoint: i64 = (q as i64) + 1;
            let w: Point = seg_start + spoint;
            // Before the crossing the side that starts higher wins; after
            // it the other side is strictly better.
            proof {
                assert forall|t: int| seg_start <= t < w implies {
                    &&& (r1s > r2s ==> #[trigger] seg_dual_rating_at(g, a, t)
                        >= seg_dual_rating_at(g, b, t))
                    &&& (r2s > r1s ==> seg_dual_rating_at(g, b, t) >= seg_dual_rating_at(g, a, t))
                } by {
                    lemma_line_rebase(sa.data.rating_info.rating as int,
                        sa.data.rating_info.delta as int, begin_a as int, seg_start as int, t);
                    lemma_line_rebase(sb.data.rating_info.rating as int,
                        sb.data.rating_info.delta as int, begin_b as int, seg_start as int, t);
                    assert((r1s > r2s ==> r1s + d1 * (t - seg_start) >= r2s + d2 * (t
                        - seg_start)) && (r2s > r1s ==> r2s + d2 * (t - seg_start) >= r1s + d1 * (
                    t - seg_start))) by (nonlinear_arith)
                        requires
                            den == d1 - d2,
                            den != 0,
                            num == r2s - r1s,
                            den > 0 ==> den * gq <= num < den * (gq + 1),
                            den < 0 ==> den * (gq + 1) < num <= den * gq,
                            seg_start <= t < seg_start + gq + 1;
                }
                assert forall|t: int| w <= t < m implies {
                    &&& (r1s > r2s ==> #[trigger] seg_dual_rating_at(g, b, t)
                        > seg_dual_rating_at(g, a, t))
                    &&& (r2s > r1s ==> seg_dual_rating_at(g, a, t) > seg_dual_rating_at(g, b, t))
                } by {
                    lemma_line_rebase(sa.data.rating_info.rating as int,
                        sa.data.rating_info.delta as int, begin_a as int, seg_start as int, t);
                    lemma_line_rebase(sb.data.rating_info.rating as int,
                        sb.data.rating_info.delta as int, begin_b as int, seg_start as int, t);
                    assert((r1s > r2s ==> r2s + d2 * (t - seg_start) > r1s + d1 * (t - seg_start))
                        && (r2s > r1s ==> r1s + d1 * (t - seg_start) > r2s + d2 * (t
                        - seg_start))) by (nonlinear_arith)
                        requires
                            den == d1 - d2,
                            den != 0,
                            num == r2s - r1s,
                            den > 0 ==> den * gq <= num < den * (gq + 1),
                            den < 0 ==> den * (gq + 1) < num <= den * gq,
                            r1s != r2s,
                            !(r1s >= r2s && r1e >= r2e),
                            !(r2s >= r1s && r2e >= r1e),
                            r1e == r1s + d1 * (len - 1),
                            r2e == r2s + d2 * (len - 1),
                            len >= 1,
                            t - seg_start >= gq + 1;
                }
            }
            let first_piece: DualInfo = if r1s > r2s {
                adv1
            } else {
                adv2
            };
            let emitted1 = FullSegment {
                span: PointSpan { start: seg_start, end: w },
                data: first_piece,
            };
            proof {
                if !(r1s > r2s) {
                    assert(seg_dual_rating_at(g, b, seg_start as int) > seg_dual_rating_at(
                        g, a, seg_start as int));
                }
                emit_max_proofs(a, b, g, out@, emitted1, gia, gib, r1s > r2s);
            }
            out.push(emitted1);
            proof {
                assert(i64::MIN <= sa.data.rating_info.spec_at(w - begin_a) <= i64::MAX);
                assert(i64::MIN <= sa.data.offset_info.spec_at(w - begin_a) <= i64::MAX);
                assert(i64::MIN <= sb.data.rating_info.spec_at(w - begin_b) <= i64::MAX);
                assert(i64::MIN <= sb.data.offset_info.spec_at(w - begin_b) <= i64::MAX);
            }
            let second_piece: DualInfo = if r1s > r2s {
                DualInfo {
                    rating_info: RatingInfo {
                        rating: add_mul(sb.data.rating_info.rating, d2, w - begin_b),
                        delta: d2,
                    },
                    offset_info: OffsetInfo {
                        offset: sb.data.offset_info.advanced_offset(w - begin_b),
                        drag: sb.data.offset_info.drag,
                    },
                }
            } else {
                DualInfo {
                    rating_info: RatingInfo {
                        rating: add_mul(sa.data.rating_info.rating, d1, w - begin_a),
                        delta: d1,
                    },
                    offset_info: OffsetInfo {
                        offset: sa.data.offset_info.advanced_offset(w - begin_a),
                        drag: sa.data.offset_info.drag,
                    },
                }
            };
            let emitted2 = FullSegment {
                span: PointSpan { start: w, end: m },
                data: second_piece,
            };
            proof {
                if r1s > r2s {
                    assert(seg_dual_rating_at(g, b, w as int) > seg_dual_rating_at(
                        g, a, w as int));
                }
                emit_max_proofs(a, b, g, out@, emitted2, gia, gib, !(r1s > r2s));
            }
            out.push(emitted2);
        }
        seg_start = m;
        if sa.end_point == m && sb.end_point == m {
            if ia + 1 < na {
                proof {
                    lemma_end_le_begin(g, a, gia, na - 1);
                    assert(seg_begin(g, a, na - 1) < a[na - 1].end_point);
                    if ib + 1 >= nb {
                        assert(sb.end_point == gend);
                        assert(sa.end_point < gend);
                    }
                    assert(seg_begin(g, a, gia + 1) < a[gia + 1].end_point);
                    assert(seg_begin(g, b, gib + 1) < b[gib + 1].end_point);
                }
                ia = ia + 1;
                ib = ib + 1;
                begin_a = sa.end_point;
                begin_b = sb.end_point;
            } else {
                proof {
                    assert(sa.end_point == gend);
                    if ib + 1 < nb {
                        lemma_end_le_begin(g, b, gib, nb - 1);
                        assert(seg_begin(g, b, nb - 1) < b[nb - 1].end_point);
                        assert(sb.end_point < gend);
                    }
                }
                done = true;
            }
        } else if sa.end_point == m {
            proof {
                if ia + 1 >= na {
                    assert(sa.end_point == gend);
                    lemma_seg_bounds(g, b, gib);
                    assert(sb.end_point <= gend);
                }
                assert(seg_begin(g, a, gia + 1) < a[gia + 1].end_point);
            }
            ia = ia + 1;
            begin_a = sa.end_point;
        } else {
            proof {
                if ib + 1 >= nb {
                    assert(sb.end_point == gend);
                    lemma_seg_bounds(g, a, gia);
                    assert(sa.end_point <= gend);
                }
                assert(seg_begin(g, b, gib + 1) < b[gib + 1].end_point);
            }
            ib = ib + 1;
            begin_b = sb.end_point;
        }
    }
    FullSegmentIterator { start, segs: out }
}

} // verus!
