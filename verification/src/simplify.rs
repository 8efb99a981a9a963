use vstd::prelude::*;
use crate::rating_type::add_mul;
use crate::segments::{
    Segment, FullSegment, RatingSegment, OffsetSegment, DualSegment, DualFullSegment, RatingInfo,
    OffsetInfo, DualInfo, PointSpan, Point, seg_begin, wf_seq, seq_end, wf_full, full_end,
    rating_at, offset_at, rating_eval, offset_eval, dual_rating_eval, dual_offset_eval,
    seg_dual_rating_at, seg_dual_offset_at, dual_rating_at, dual_offset_at,
    ratings_representable, ratings_bounded,
    offsets_representable, dual_segs_representable, duals_representable, lemma_value_at_index,
    lemma_value_at_push, lemma_wf_push, lemma_wf_full_push, lemma_full_value_at_push,
    lemma_seg_bounds, lemma_line_rebase, lemma_ratings_representable_push, lemma_linear_between,
    lemma_end_le_begin, lemma_wf_same_ends,
};
use crate::rating_type::{div_floor_i128, RatingDelta};
use crate::streams::{SegmentIterator, FullSegmentIterator, RatingIterator, DualFullSegmentIterator};
use crate::buffers::{RatingBuffer, OffsetBuffer, SeparateDualBuffer};

verus! {

/// Segment `i` merely continues segment `i - 1`'s line: the same slope,
/// with exactly abutting values.
pub open spec fn rating_run_continues(gstart: int, s: Seq<RatingSegment>, i: int) -> bool {
    &&& s[i].data.delta == s[i - 1].data.delta
    &&& s[i - 1].data.spec_at(s[i - 1].end_point - seg_begin(gstart, s, i - 1)) == s[i].data.rating
}

/// No two adjacent segments could still be merged by the exact rule.
pub open spec fn fully_merged(gstart: int, s: Seq<RatingSegment>) -> bool {
    forall|i: int| 0 < i < s.len() ==> !#[trigger] rating_run_continues(gstart, s, i)
}

/// The pending data does not continue the last emitted segment's line.
pub open spec fn rating_merge_break(
    gstart: int,
    out: Seq<RatingSegment>,
    data: RatingInfo,
) -> bool {
    out.len() == 0 || !({
        &&& data.delta == out.last().data.delta
        &&& out.last().data.spec_at(
            out.last().end_point - seg_begin(gstart, out, out.len() - 1),
        ) == data.rating
    })
}

/// Appending a segment that breaks the run keeps the output fully merged.
proof fn lemma_fully_merged_push(gstart: int, out: Seq<RatingSegment>, x: RatingSegment)
    requires
        fully_merged(gstart, out),
        rating_merge_break(gstart, out, x.data),
    ensures
        fully_merged(gstart, out.push(x)),
{
    let s2 = out.push(x);
    assert forall|i: int| 0 < i < s2.len() implies !#[trigger] rating_run_continues(
        gstart, s2, i) by {
        if i < out.len() {
            assert(!rating_run_continues(gstart, out, i));
            assert(s2[i] == out[i] && s2[i - 1] == out[i - 1]);
            assert(seg_begin(gstart, s2, i - 1) == seg_begin(gstart, out, i - 1));
        } else {
            assert(s2[i] == x && s2[i - 1] == out.last());
            assert(seg_begin(gstart, s2, i - 1) == seg_begin(gstart, out, out.len() - 1));
        }
    }
}

/// Appending a pending merged segment to the simplified output: the
/// segment's line reproduces the input's values over its span.
#[verifier::rlimit(100)]
proof fn lemma_simplified_push(
    gstart: int,
    s: Seq<RatingSegment>,
    out: Seq<RatingSegment>,
    cur_start: int,
    cur: RatingSegment,
)
    requires
        wf_seq(gstart, out),
        seq_end(gstart, out) == cur_start,
        gstart <= cur_start < cur.end_point,
        ratings_representable(gstart, out),
        forall|l: int|
            0 <= l <= cur.end_point - cur_start ==> i64::MIN <= (#[trigger] cur.data.spec_at(l))
                <= i64::MAX,
        forall|t: int|
            gstart <= t < cur_start ==> #[trigger] rating_at(gstart, out, t) == rating_at(
                gstart, s, t),
        forall|t: int|
            cur_start <= t < cur.end_point ==> cur.data.spec_at(t - cur_start)
                == #[trigger] rating_at(gstart, s, t),
    ensures
        wf_seq(gstart, out.push(cur)),
        seq_end(gstart, out.push(cur)) == cur.end_point,
        ratings_representable(gstart, out.push(cur)),
        forall|t: int|
            gstart <= t < cur.end_point ==> #[trigger] rating_at(gstart, out.push(cur), t)
                == rating_at(gstart, s, t),
{
    lemma_wf_push(gstart, out, cur);
    lemma_ratings_representable_push(gstart, out, cur);
    assert forall|t: int| gstart <= t < cur.end_point implies #[trigger] rating_at(
        gstart, out.push(cur), t) == rating_at(gstart, s, t) by {
        lemma_value_at_push(gstart, out, rating_eval(), cur, t);
        if t >= cur_start {
            assert(cur.data.spec_at(t - cur_start) == rating_at(gstart, s, t));
        } else {
            assert(rating_at(gstart, out, t) == rating_at(gstart, s, t));
        }
    }
}

impl SegmentIterator<RatingInfo> {
    /// Exact simplification: adjacent segments with the same slope whose
    /// values abut exactly are merged.  The piecewise function is
    /// unchanged at every point of the signal.
    #[verifier::rlimit(100)]
    pub fn save_simplified(self) -> (r: RatingBuffer)
        requires
            self.wf(),
            ratings_representable(self.start as int, self.segs@),
            self.spec_end() - self.start <= i64::MAX,
        ensures
            r.start == self.start,
            r.wf(),
            r.spec_end() == self.spec_end(),
            ratings_representable(self.start as int, r.buffer@),
            r.buffer@.len() == 0 <==> self.segs@.len() == 0,
            fully_merged(self.start as int, r.buffer@),
            forall|t: int|
                self.start <= t < self.spec_end() ==> #[trigger] rating_at(
                    self.start as int, r.buffer@, t) == rating_at(
                    self.start as int, self.segs@, t),
    {
        let ghost gstart: int = self.start as int;
        let ghost s: Seq<RatingSegment> = self.segs@;
        let ghost gend: int = self.spec_end();
        let n: usize = self.segs.len();
        if n == 0 {
            return RatingBuffer { start: self.start, buffer: Vec::new() };
        }
        let mut out: Vec<RatingSegment> = Vec::new();
        let mut cur_start: Point = self.start;
        let mut cur: RatingSegment = self.segs[0];
        let mut i: usize = 1;
        proof {
            assert(seg_begin(gstart, s, 0) < s[0].end_point);
            lemma_seg_bounds(gstart, s, 0);
            assert forall|t: int| cur_start <= t < cur.end_point implies cur.data.spec_at(
                t - cur_start) == #[trigger] rating_at(gstart, s, t) by {
                lemma_value_at_index(gstart, s, rating_eval(), 0, t);
            }
        }
        while i < n
            invariant
                n == s.len(),
                s == self.segs@,
                gstart == self.start as int,
                gend == seq_end(gstart, s),
                gend - gstart <= i64::MAX,
                wf_seq(gstart, s),
                ratings_representable(gstart, s),
                1 <= i <= n,
                cur.end_point == s[i - 1].end_point,
                gstart <= cur_start < cur.end_point,
                cur_start <= seg_begin(gstart, s, i as int - 1),
                cur.data.delta == s[i - 1].data.delta,
                cur.data.spec_at(seg_begin(gstart, s, i as int - 1) - cur_start) == s[i
                    - 1].data.rating,
                wf_seq(gstart, out@),
                seq_end(gstart, out@) == cur_start,
                ratings_representable(gstart, out@),
                fully_merged(gstart, out@),
                rating_merge_break(gstart, out@, cur.data),
                forall|t: int|
                    gstart <= t < cur_start ==> #[trigger] rating_at(gstart, out@, t) == rating_at(
                        gstart, s, t),
                forall|t: int|
                    cur_start <= t < cur.end_point ==> cur.data.spec_at(t - cur_start)
                        == #[trigger] rating_at(gstart, s, t),
            decreases n - i,
        {
            let ghost gi: int = i as int;
            let ghost shift: int = seg_begin(gstart, s, gi - 1) - cur_start;
            let seg = self.segs[i];
            proof {
                assert(seg_begin(gstart, s, gi) < s[gi].end_point);
                lemma_seg_bounds(gstart, s, gi);
                lemma_seg_bounds(gstart, s, gi - 1);
                // The pending line is segment `i - 1`'s line, re-anchored
                // at `cur_start`; its values over the pending span are
                // bounded because that segment's are.
                assert forall|l: int|
                    0 <= l <= cur.end_point - cur_start implies i64::MIN <= (
                #[trigger] cur.data.spec_at(l)) <= i64::MAX by {
                    if l >= shift {
                        lemma_line_rebase(cur.data.rating as int, cur.data.delta as int, 0, shift,
                            l);
                        assert(i64::MIN <= s[gi - 1].data.spec_at(l - shift) <= i64::MAX);
                    } else {
                        assert(cur.data.spec_at(l) == rating_at(gstart, s, cur_start + l));
                        lemma_rating_at_bounded(gstart, s, cur_start + l);
                    }
                }
                assert(i64::MIN <= cur.data.spec_at(cur.end_point - cur_start) <= i64::MAX);
            }
            let excl: i64 = add_mul(cur.data.rating, cur.data.delta, cur.end_point - cur_start);
            if seg.data.delta == cur.data.delta && excl == seg.data.rating {
                proof {
                    // The next segment continues the same line.
                    assert forall|t: int|
                        cur.end_point <= t < seg.end_point implies cur.data.spec_at(t - cur_start)
                            == #[trigger] rating_at(gstart, s, t) by {
                        lemma_value_at_index(gstart, s, rating_eval(), gi, t);
                        lemma_line_rebase(cur.data.rating as int, cur.data.delta as int,
                            cur_start as int, cur.end_point as int, t);
                    }
                    lemma_line_rebase(cur.data.rating as int, cur.data.delta as int,
                        cur_start as int, cur.end_point as int, cur.end_point as int);
                }
                cur = Segment { end_point: seg.end_point, data: cur.data };
            } else {
                proof {
                    lemma_simplified_push(gstart, s, out@, cur_start as int, cur);
                    lemma_fully_merged_push(gstart, out@, cur);
                    assert(cur.data.spec_at(cur.end_point - cur_start) == excl);
                    assert forall|t: int|
                        cur.end_point <= t < seg.end_point implies seg.data.spec_at(
                        t - cur.end_point) == #[trigger] rating_at(gstart, s, t) by {
                        lemma_value_at_index(gstart, s, rating_eval(), gi, t);
                    }
                }
                out.push(cur);
                proof {
                    assert(out@.last() == cur);
                    assert(seg_begin(gstart, out@, out@.len() - 1) == cur_start);
                    assert(rating_merge_break(gstart, out@, seg.data));
                }
                cur_start = cur.end_point;
                cur = seg;
            }
            i = i + 1;
        }
        proof {
            assert forall|l: int|
                0 <= l <= cur.end_point - cur_start implies i64::MIN <= (
            #[trigger] cur.data.spec_at(l)) <= i64::MAX by {
                let shift: int = seg_begin(gstart, s, n as int - 1) - cur_start;
                if l >= shift {
                    lemma_line_rebase(cur.data.rating as int, cur.data.delta as int, 0, shift, l);
                    assert(i64::MIN <= s[n - 1].data.spec_at(l - shift) <= i64::MAX);
                } else {
                    assert(cur.data.spec_at(l) == rating_at(gstart, s, cur_start + l));
                    lemma_rating_at_bounded(gstart, s, cur_start + l);
                }
            }
            lemma_simplified_push(gstart, s, out@, cur_start as int, cur);
            lemma_fully_merged_push(gstart, out@, cur);
        }
        out.push(cur);
        RatingBuffer { start: self.start, buffer: out }
    }
}

/// Within the signal, the value of a representable run fits in `i64`.
pub proof fn lemma_rating_at_bounded(start: int, s: Seq<RatingSegment>, t: int)
    requires
        wf_seq(start, s),
        ratings_representable(start, s),
        s.len() > 0,
        start <= t < seq_end(start, s),
    ensures
        i64::MIN <= rating_at(start, s, t) <= i64::MAX,
{
    lemma_segment_of_point(start, s, t);
    let i = choose|i: int|
        0 <= i < s.len() && #[trigger] seg_begin(start, s, i) <= t && t < s[i].end_point;
    lemma_value_at_index(start, s, rating_eval(), i, t);
    assert(i64::MIN <= s[i].data.spec_at(t - seg_begin(start, s, i)) <= i64::MAX);
}

/// Every point of the signal lies in some segment.
pub proof fn lemma_segment_of_point<D>(start: int, s: Seq<Segment<D>>, t: int)
    requires
        wf_seq(start, s),
        s.len() > 0,
        start <= t < seq_end(start, s),
    ensures
        exists|i: int|
            0 <= i < s.len() && #[trigger] seg_begin(start, s, i) <= t && t < s[i].end_point,
    decreases s.len(),
{
    if t < s[0].end_point {
        assert(seg_begin(start, s, 0) <= t && t < s[0].end_point);
    } else {
        crate::segments::lemma_wf_skip(start, s);
        assert(s.skip(1)[s.len() - 2] == s[s.len() - 1]);
        lemma_segment_of_point(s[0].end_point as int, s.skip(1), t);
        let j = choose|j: int|
            0 <= j < s.skip(1).len() && #[trigger] seg_begin(
                s[0].end_point as int, s.skip(1), j) <= t && t < s.skip(1)[j].end_point;
        assert(seg_begin(start, s, j + 1) <= t && t < s[j + 1].end_point);
    }
}

/// Within the signal, both lines of a representable dual run fit in `i64`.
pub proof fn lemma_dual_value_bounded(start: int, s: Seq<DualSegment>, t: int)
    requires
        wf_seq(start, s),
        dual_segs_representable(start, s),
        s.len() > 0,
        start <= t < seq_end(start, s),
    ensures
        i64::MIN <= seg_dual_rating_at(start, s, t) <= i64::MAX,
        i64::MIN <= seg_dual_offset_at(start, s, t) <= i64::MAX,
{
    lemma_segment_of_point(start, s, t);
    let i = choose|i: int|
        0 <= i < s.len() && #[trigger] seg_begin(start, s, i) <= t && t < s[i].end_point;
    lemma_value_at_index(start, s, dual_rating_eval(), i, t);
    lemma_value_at_index(start, s, dual_offset_eval(), i, t);
    assert(i64::MIN <= s[i].data.rating_info.spec_at(t - seg_begin(start, s, i)) <= i64::MAX);
    assert(i64::MIN <= s[i].data.offset_info.spec_at(t - seg_begin(start, s, i)) <= i64::MAX);
}

/// The fitted line through the pivot with slope `m` stays within `eps` of
/// the value `v` at point `x`.
pub open spec fn fits_eps(pivot_r: int, m: int, pivot: int, x: int, v: int, eps: int) -> bool {
    v - eps <= pivot_r + m * (x - pivot) <= v + eps
}

/// The fitted line is within `eps` of the signal at both covered endpoints
/// of input segment `j`: its begin and its last point.
pub open spec fn endpoints_ok(
    s: Seq<RatingSegment>,
    gstart: int,
    j: int,
    pivot: int,
    pivot_r: int,
    m: int,
    eps: int,
) -> bool {
    &&& fits_eps(
        pivot_r,
        m,
        pivot,
        seg_begin(gstart, s, j),
        rating_at(gstart, s, seg_begin(gstart, s, j)),
        eps,
    )
    &&& fits_eps(
        pivot_r,
        m,
        pivot,
        s[j].end_point - 1,
        rating_at(gstart, s, s[j].end_point - 1),
        eps,
    )
}

/// The fitted line is within `eps` at the covered endpoints of every input
/// segment of the run `[j0, jend)`.
pub open spec fn run_within(
    s: Seq<RatingSegment>,
    gstart: int,
    j0: int,
    jend: int,
    pivot: int,
    pivot_r: int,
    m: int,
    eps: int,
) -> bool {
    forall|j: int| j0 <= j < jend ==> #[trigger] endpoints_ok(s, gstart, j, pivot, pivot_r, m, eps)
}

/// The pending run's line, anchored at `run_start`, is within `eps` of the
/// signal at both covered endpoints of input segment `j`.
pub open spec fn run_line_close(
    s: Seq<RatingSegment>,
    gstart: int,
    j: int,
    run_start: int,
    data: RatingInfo,
    eps: int,
) -> bool {
    &&& rating_at(gstart, s, seg_begin(gstart, s, j)) - eps <= data.spec_at(
        seg_begin(gstart, s, j) - run_start,
    ) <= rating_at(gstart, s, seg_begin(gstart, s, j)) + eps
    &&& rating_at(gstart, s, s[j].end_point - 1) - eps <= data.spec_at(
        s[j].end_point - 1 - run_start,
    ) <= rating_at(gstart, s, s[j].end_point - 1) + eps
}

/// The output is within `eps` of the input at both covered endpoints of
/// input segment `j`.
pub open spec fn out_close(
    s: Seq<RatingSegment>,
    gstart: int,
    out: Seq<RatingSegment>,
    j: int,
    eps: int,
) -> bool {
    &&& rating_at(gstart, s, seg_begin(gstart, s, j)) - eps <= rating_at(
        gstart,
        out,
        seg_begin(gstart, s, j),
    ) <= rating_at(gstart, s, seg_begin(gstart, s, j)) + eps
    &&& rating_at(gstart, s, s[j].end_point - 1) - eps <= rating_at(
        gstart,
        out,
        s[j].end_point - 1,
    ) <= rating_at(gstart, s, s[j].end_point - 1) + eps
}

/// The signal's values, widened by `eps` on both sides, stay within `i64`
/// at every point of every segment's span.
pub open spec fn eps_headroom(start: int, s: Seq<RatingSegment>, eps: int) -> bool {
    forall|i: int, len: int|
        0 <= i < s.len() && 0 <= len <= s[i].end_point - seg_begin(start, s, i) - 1 ==> {
            &&& i64::MIN <= (#[trigger] s[i].data.spec_at(len)) - eps
            &&& s[i].data.spec_at(len) + eps <= i64::MAX
        }
}

/// The accumulated output of the aggressive pass after finishing the runs
/// covering input segments `[0, j0)`.
pub open spec fn agg_out_ok(
    s: Seq<RatingSegment>,
    gstart: int,
    out: Seq<RatingSegment>,
    j0: int,
    eps: int,
) -> bool {
    &&& wf_seq(gstart, out)
    &&& seq_end(gstart, out) == seg_begin(gstart, s, j0)
    &&& ratings_bounded(gstart, out)
    &&& forall|j: int| 0 <= j < j0 ==> #[trigger] out_close(s, gstart, out, j, eps)
    &&& (eps == 0 ==> forall|t: int|
        gstart <= t < seg_begin(gstart, s, j0) ==> #[trigger] rating_at(gstart, out, t)
            == rating_at(gstart, s, t))
}

/// Ceiling quotient, characterized by multiplication bounds.
fn ceil_div_i128(y: i128, c: i128) -> (r: i128)
    requires
        c != 0,
        y != i128::MIN,
        c != i128::MIN,
        -0x7fff_ffff_ffff_ffff_ffff <= y <= 0x7fff_ffff_ffff_ffff_ffff,
        -0x7fff_ffff_ffff_ffff_ffff <= c <= 0x7fff_ffff_ffff_ffff_ffff,
    ensures
        c > 0 ==> y <= c * r < y + c,
        c < 0 ==> y >= c * r > y + c,
{
    let q: i128 = div_floor_i128(y, c);
    proof {
        if c > 0 {
            assert(y - c < c * q <= y && -0x1_0000_0000_0000_0000_0000 < q
                < 0x1_0000_0000_0000_0000_0000) by (nonlinear_arith)
                requires
                    c > 0,
                    -0x7fff_ffff_ffff_ffff_ffff <= y <= 0x7fff_ffff_ffff_ffff_ffff,
                    -0x7fff_ffff_ffff_ffff_ffff <= c <= 0x7fff_ffff_ffff_ffff_ffff,
                    c * q <= y < c * (q + 1);
        } else {
            assert(y <= c * q < y - c && -0x1_0000_0000_0000_0000_0000 < q
                < 0x1_0000_0000_0000_0000_0000) by (nonlinear_arith)
                requires
                    c < 0,
                    -0x7fff_ffff_ffff_ffff_ffff <= y <= 0x7fff_ffff_ffff_ffff_ffff,
                    -0x7fff_ffff_ffff_ffff_ffff <= c <= 0x7fff_ffff_ffff_ffff_ffff,
                    c * (q + 1) < y <= c * q;
        }
        assert(q * c == c * q) by (nonlinear_arith);
    }
    let prod: i128 = q * c;
    if prod == y {
        q
    } else {
        proof {
            if c > 0 {
                assert(y <= c * (q + 1) < y + c) by (nonlinear_arith)
                    requires
                        c > 0,
                        c * q <= y < c * (q + 1),
                        c * q != y;
            } else {
                assert(y >= c * (q + 1) > y + c) by (nonlinear_arith)
                    requires
                        c < 0,
                        c * (q + 1) < y <= c * q,
                        c * q != y;
            }
        }
        q + 1
    }
}

/// The integer slopes `m` for which the line through the pivot stays
/// within `eps` of value `v` at point `x`; sound but clamped to `i64`.
#[verifier::rlimit(100)]
fn slope_interval(pivot_r: i64, pivot: i64, x: i64, v: i64, eps: i64) -> (r: (i128, i128))
    requires
        eps >= 0,
    ensures
        -0x8000_0000_0000_0000 <= r.0,
        r.1 <= 0x7fff_ffff_ffff_ffff,
        forall|m: int|
            r.0 <= m <= r.1 ==> #[trigger] fits_eps(
                pivot_r as int, m, pivot as int, x as int, v as int, eps as int),
{
    let c: i128 = x as i128 - pivot as i128;
    let a: i128 = v as i128 - eps as i128 - pivot_r as i128;
    let bb: i128 = v as i128 + eps as i128 - pivot_r as i128;
    let min64: i128 = -0x8000_0000_0000_0000i128;
    let max64: i128 = 0x7fff_ffff_ffff_ffffi128;
    if c == 0 {
        if a <= 0 && 0 <= bb {
            (min64, max64)
        } else {
            (1, 0)
        }
    } else if c > 0 {
        let lo: i128 = ceil_div_i128(a, c);
        let hi: i128 = div_floor_i128(bb, c);
        let rlo: i128 = if lo < min64 {
            min64
        } else {
            lo
        };
        let rhi: i128 = if hi > max64 {
            max64
        } else {
            hi
        };
        proof {
            assert forall|m: int| rlo <= m <= rhi implies #[trigger] fits_eps(
                pivot_r as int, m, pivot as int, x as int, v as int, eps as int) by {
                assert(a <= c * m <= bb) by (nonlinear_arith)
                    requires
                        c > 0,
                        lo <= m <= hi,
                        a <= c * lo,
                        c * hi <= bb;
                assert(c * m == m * c) by (nonlinear_arith);
            }
        }
        (rlo, rhi)
    } else {
        let lo: i128 = ceil_div_i128(bb, c);
        let hi: i128 = div_floor_i128(a, c);
        let rlo: i128 = if lo < min64 {
            min64
        } else {
            lo
        };
        let rhi: i128 = if hi > max64 {
            max64
        } else {
            hi
        };
        proof {
            assert forall|m: int| rlo <= m <= rhi implies #[trigger] fits_eps(
                pivot_r as int, m, pivot as int, x as int, v as int, eps as int) by {
                assert(a <= c * m <= bb) by (nonlinear_arith)
                    requires
                        c < 0,
                        lo <= m <= hi,
                        bb >= c * lo,
                        c * hi >= a;
                assert(c * m == m * c) by (nonlinear_arith);
            }
        }
        (rlo, rhi)
    }
}

/// Two lines that agree at two distinct points agree everywhere.
pub proof fn lemma_two_point_lines(
    r1: int,
    d1: int,
    a1: int,
    r2: int,
    d2: int,
    a2: int,
    p: int,
    q: int,
    t: int,
)
    by (nonlinear_arith)
    requires
        p != q,
        r1 + d1 * (p - a1) == r2 + d2 * (p - a2),
        r1 + d1 * (q - a1) == r2 + d2 * (q - a2),
    ensures
        r1 + d1 * (t - a1) == r2 + d2 * (t - a2),
{
}

/// A new rating segment whose line stays within `i64` up to its last point
/// keeps a run bounded.
proof fn lemma_ratings_bounded_push(start: int, s: Seq<RatingSegment>, x: RatingSegment)
    requires
        ratings_bounded(start, s),
        forall|l: int|
            0 <= l <= x.end_point - seq_end(start, s) - 1 ==> i64::MIN <= (
            #[trigger] x.data.spec_at(l)) <= i64::MAX,
    ensures
        ratings_bounded(start, s.push(x)),
{
    let s2 = s.push(x);
    assert forall|i: int, len: int|
        0 <= i < s2.len() && 0 <= len <= s2[i].end_point - seg_begin(start, s2, i) - 1 implies
        i64::MIN <= (#[trigger] s2[i].data.spec_at(len)) <= i64::MAX by {
        if i < s.len() {
            assert(s2[i] == s[i]);
            assert(seg_begin(start, s2, i) == seg_begin(start, s, i));
            assert(i64::MIN <= s[i].data.spec_at(len) <= i64::MAX);
        } else {
            assert(s2[i] == x);
            assert(seg_begin(start, s2, i) == seq_end(start, s));
            assert(i64::MIN <= x.data.spec_at(len) <= i64::MAX);
        }
    }
}

/// Closes the pending run of the aggressive pass: its fitted line is
/// emitted as one segment, staying within `eps` of the input at every
/// covered endpoint, and reproducing the input exactly when `eps` is zero.
#[verifier::rlimit(100)]
fn agg_flush(
    out: &mut Vec<RatingSegment>,
    cur: RatingSegment,
    run_start: Point,
    Ghost(s): Ghost<Seq<RatingSegment>>,
    Ghost(gstart): Ghost<int>,
    Ghost(j0): Ghost<int>,
    Ghost(jend): Ghost<int>,
    Ghost(eps): Ghost<int>,
)
    requires
        wf_seq(gstart, s),
        eps >= 0,
        eps_headroom(gstart, s, eps),
        0 <= j0 < jend <= s.len(),
        run_start == seg_begin(gstart, s, j0),
        cur.end_point == s[jend - 1].end_point,
        gstart <= run_start,
        agg_out_ok(s, gstart, old(out)@, j0, eps),
        forall|j: int|
            j0 <= j < jend ==> #[trigger] run_line_close(
                s, gstart, j, run_start as int, cur.data, eps),
    ensures
        agg_out_ok(s, gstart, final(out)@, jend, eps),
{
    let ghost run_end: int = cur.end_point as int;
    proof {
        assert(seg_begin(gstart, s, j0) < s[j0].end_point);
        assert(seg_begin(gstart, s, jend - 1) < s[jend - 1].end_point);
        lemma_seg_bounds(gstart, s, jend - 1);
        lemma_seg_bounds(gstart, s, j0);
        if j0 < jend - 1 {
            lemma_end_le_begin(gstart, s, j0, jend - 1);
        }
        assert(run_start < run_end);
        // Values of the input within the run, segment by segment.
        assert forall|j: int| j0 <= j < jend implies {
            &&& seg_begin(gstart, s, j) >= run_start
            &&& (#[trigger] s[j]).end_point <= run_end
        } by {
            if j > j0 {
                lemma_end_le_begin(gstart, s, j0, j);
            }
            if j < jend - 1 {
                lemma_end_le_begin(gstart, s, j, jend - 1);
            }
        }
        // The fitted line is bounded over the emitted span.
        assert(run_line_close(s, gstart, j0, run_start as int, cur.data, eps));
        assert(run_line_close(s, gstart, jend - 1, run_start as int, cur.data, eps));
        assert(rating_at(gstart, s, run_start as int) == s[j0].data.spec_at(0)) by {
            lemma_value_at_index(gstart, s, rating_eval(), j0, run_start as int);
        }
        assert(rating_at(gstart, s, run_end - 1) == s[jend - 1].data.spec_at(
            run_end - 1 - seg_begin(gstart, s, jend - 1))) by {
            lemma_value_at_index(gstart, s, rating_eval(), jend - 1, run_end - 1);
        }
        assert(i64::MIN <= s[j0].data.spec_at(0) - eps && s[j0].data.spec_at(0) + eps
            <= i64::MAX);
        assert(i64::MIN <= s[jend - 1].data.spec_at(run_end - 1 - seg_begin(gstart, s, jend - 1))
            - eps && s[jend - 1].data.spec_at(run_end - 1 - seg_begin(gstart, s, jend - 1)) + eps
            <= i64::MAX);
        assert forall|l: int| 0 <= l <= run_end - run_start - 1 implies i64::MIN <= (
        #[trigger] cur.data.spec_at(l)) <= i64::MAX by {
            lemma_linear_between(cur.data.rating as int, cur.data.delta as int, l,
                run_end - run_start - 1);
        }
        lemma_wf_push(gstart, out@, cur);
        lemma_ratings_bounded_push(gstart, out@, cur);
        // Values of the new output.
        assert forall|t: int| gstart <= t < run_end implies #[trigger] rating_at(
            gstart, out@.push(cur), t) == if t < run_start {
            rating_at(gstart, out@, t)
        } else {
            cur.data.spec_at(t - run_start)
        } by {
            lemma_value_at_push(gstart, out@, rating_eval(), cur, t);
        }
        // Closeness at the covered endpoints of each input segment.
        assert forall|j: int| 0 <= j < jend implies #[trigger] out_close(
            s, gstart, out@.push(cur), j, eps) by {
            if j < j0 {
                assert(out_close(s, gstart, out@, j, eps));
                assert(seg_begin(gstart, s, j) < s[j].end_point);
                lemma_seg_bounds(gstart, s, j);
                lemma_end_le_begin(gstart, s, j, j0);
            } else {
                assert(run_line_close(s, gstart, j, run_start as int, cur.data, eps));
                assert(seg_begin(gstart, s, j) >= run_start && s[j].end_point <= run_end);
                assert(seg_begin(gstart, s, j) < s[j].end_point);
            }
        }
        // With a zero tolerance the output reproduces the input exactly.
        if eps == 0 {
            assert forall|t: int|
                gstart <= t < seg_begin(gstart, s, jend) implies #[trigger] rating_at(
                gstart, out@.push(cur), t) == rating_at(gstart, s, t) by {
                if t < run_start {
                    assert(rating_at(gstart, out@, t) == rating_at(gstart, s, t));
                } else {
                    lemma_segment_of_point(gstart, s, t);
                    let j = choose|j: int|
                        0 <= j < s.len() && #[trigger] seg_begin(gstart, s, j) <= t && t < s[
                            j].end_point;
                    if j < j0 {
                        lemma_end_le_begin(gstart, s, j, j0);
                        assert(false);
                    }
                    if j >= jend {
                        lemma_end_le_begin(gstart, s, jend - 1, j);
                        assert(false);
                    }
                    lemma_value_at_index(gstart, s, rating_eval(), j, t);
                    lemma_value_at_index(gstart, s, rating_eval(), j, seg_begin(gstart, s, j));
                    lemma_value_at_index(gstart, s, rating_eval(), j, s[j].end_point - 1);
                    assert(run_line_close(s, gstart, j, run_start as int, cur.data, 0));
                    let bj: int = seg_begin(gstart, s, j);
                    let ej: int = s[j].end_point - 1;
                    if bj != ej {
                        lemma_two_point_lines(
                            cur.data.rating as int,
                            cur.data.delta as int,
                            run_start as int,
                            s[j].data.rating as int,
                            s[j].data.delta as int,
                            bj,
                            bj,
                            ej,
                            t,
                        );
                    } else {
                        assert(t == bj);
                    }
                }
            }
        }
    }
    out.push(cur);
}

impl SegmentIterator<RatingInfo> {
    /// Lossy simplification controlled by `epsilon`: greedy runs of
    /// segments are replaced by a single line through the first segment's
    /// midpoint, chosen so the output differs from the input by at most
    /// `epsilon` at every covered segment endpoint.  With `epsilon` zero
    /// the output reproduces the input at every point.
    #[verifier::rlimit(100)]
    pub fn save_aggressively_simplified(self, epsilon: RatingDelta) -> (r: RatingBuffer)
        requires
            self.wf(),
            epsilon >= 0,
            ratings_representable(self.start as int, self.segs@),
            eps_headroom(self.start as int, self.segs@, epsilon as int),
            self.spec_end() - self.start <= i64::MAX,
        ensures
            r.start == self.start,
            r.wf(),
            r.spec_end() == self.spec_end(),
            ratings_bounded(self.start as int, r.buffer@),
            forall|j: int|
                0 <= j < self.segs@.len() ==> #[trigger] out_close(
                    self.segs@, self.start as int, r.buffer@, j, epsilon as int),
            epsilon == 0 ==> forall|t: int|
                self.start <= t < self.spec_end() ==> #[trigger] rating_at(
                    self.start as int, r.buffer@, t) == rating_at(
                    self.start as int, self.segs@, t),
    {
        let ghost gstart: int = self.start as int;
        let ghost s: Seq<RatingSegment> = self.segs@;
        let ghost gend: int = self.spec_end();
        let ghost eps: int = epsilon as int;
        let n: usize = self.segs.len();
        if n == 0 {
            return RatingBuffer { start: self.start, buffer: Vec::new() };
        }
        let mut out: Vec<RatingSegment> = Vec::new();
        let mut run_start: Point = self.start;
        let ghost mut j0: int = 0;
        let first = self.segs[0];
        proof {
            assert(seg_begin(gstart, s, 0) < s[0].end_point);
            lemma_seg_bounds(gstart, s, 0);
        }
        let mut cur: RatingSegment = first;
        let span0 = PointSpan::new(run_start, first.end_point);
        let mut pivot: Point = span0.half();
        proof {
            assert(i64::MIN <= s[0].data.spec_at(pivot - run_start) <= i64::MAX);
        }
        let mut pivot_r: i64 = add_mul(first.data.rating, first.data.delta, pivot - run_start);
        let mut end1: i64 = first.end_point - 1;
        proof {
            assert(i64::MIN <= s[0].data.spec_at(first.end_point - 1 - run_start) <= i64::MAX);
        }
        let mut v2: i64 = add_mul(first.data.rating, first.data.delta, end1 - run_start);
        let iv1 = slope_interval(pivot_r, pivot, run_start, first.data.rating, epsilon);
        let iv2 = slope_interval(pivot_r, pivot, end1, v2, epsilon);
        let mut lo: i128 = if iv1.0 > iv2.0 {
            iv1.0
        } else {
            iv2.0
        };
        let mut hi: i128 = if iv1.1 < iv2.1 {
            iv1.1
        } else {
            iv2.1
        };
        let mut i: usize = 1;
        proof {
            lemma_value_at_index(gstart, s, rating_eval(), 0, run_start as int);
            lemma_value_at_index(gstart, s, rating_eval(), 0, pivot as int);
            lemma_value_at_index(gstart, s, rating_eval(), 0, first.end_point - 1);
            assert(run_line_close(s, gstart, 0, run_start as int, cur.data, eps));
            assert forall|m: int| lo <= m <= hi implies run_within(
                s, gstart, 0, 1, pivot as int, pivot_r as int, m, eps) by {
                assert(fits_eps(pivot_r as int, m, pivot as int, run_start as int, rating_at(
                    gstart, s, run_start as int), eps));
                assert(fits_eps(pivot_r as int, m, pivot as int, first.end_point - 1, rating_at(
                    gstart, s, first.end_point - 1), eps));
                assert(endpoints_ok(s, gstart, 0, pivot as int, pivot_r as int, m, eps));
            }
        }
        while i < n
            invariant
                n == s.len(),
                s == self.segs@,
                gstart == self.start as int,
                gend == seq_end(gstart, s),
                gend - gstart <= i64::MAX,
                eps == epsilon as int,
                eps >= 0,
                wf_seq(gstart, s),
                ratings_representable(gstart, s),
                eps_headroom(gstart, s, eps),
                1 <= i <= n,
                0 <= j0 < i,
                run_start == seg_begin(gstart, s, j0),
                gstart <= run_start,
                cur.end_point == s[i - 1].end_point,
                seg_begin(gstart, s, j0) <= pivot < s[j0].end_point,
                pivot_r == rating_at(gstart, s, pivot as int),
                -0x8000_0000_0000_0000 <= lo,
                hi <= 0x7fff_ffff_ffff_ffff,
                agg_out_ok(s, gstart, out@, j0, eps),
                forall|j: int|
                    j0 <= j < i ==> #[trigger] run_line_close(
                        s, gstart, j, run_start as int, cur.data, eps),
                forall|m: int|
                    lo <= m <= hi ==> #[trigger] run_within(
                        s, gstart, j0, i as int, pivot as int, pivot_r as int, m, eps),
            decreases n - i,
        {
            let ghost gi: int = i as int;
            let b: Point = cur.end_point;
            let seg = self.segs[i];
            proof {
                assert(seg_begin(gstart, s, gi) < s[gi].end_point);
                lemma_seg_bounds(gstart, s, gi);
                lemma_seg_bounds(gstart, s, j0);
                assert(i64::MIN <= s[gi].data.spec_at(seg.end_point - 1 - b) <= i64::MAX);
                lemma_value_at_index(gstart, s, rating_eval(), gi, b as int);
                lemma_value_at_index(gstart, s, rating_eval(), gi, seg.end_point - 1);
            }
            let e1: i64 = seg.end_point - 1;
            let sv2: i64 = add_mul(seg.data.rating, seg.data.delta, e1 - b);
            let c1 = slope_interval(pivot_r, pivot, b, seg.data.rating, epsilon);
            let c2 = slope_interval(pivot_r, pivot, e1, sv2, epsilon);
            let mut nlo: i128 = lo;
            let mut nhi: i128 = hi;
            if c1.0 > nlo {
                nlo = c1.0;
            }
            if c2.0 > nlo {
                nlo = c2.0;
            }
            if c1.1 < nhi {
                nhi = c1.1;
            }
            if c2.1 < nhi {
                nhi = c2.1;
            }
            if nlo <= nhi {
                // The run absorbs this segment; refit the line through the
                // pivot with the midpoint of the surviving slopes.
                proof {
                    assert forall|m: int| nlo <= m <= nhi implies #[trigger] run_within(
                        s, gstart, j0, gi + 1, pivot as int, pivot_r as int, m, eps) by {
                        assert(run_within(s, gstart, j0, gi, pivot as int, pivot_r as int, m,
                            eps));
                        assert(fits_eps(pivot_r as int, m, pivot as int, b as int, rating_at(
                            gstart, s, b as int), eps));
                        assert(fits_eps(pivot_r as int, m, pivot as int, e1 as int, rating_at(
                            gstart, s, e1 as int), eps));
                        assert(endpoints_ok(s, gstart, gi, pivot as int, pivot_r as int, m, eps));
                        assert forall|j: int| j0 <= j < gi + 1 implies #[trigger] endpoints_ok(
                            s, gstart, j, pivot as int, pivot_r as int, m, eps) by {
                            if j < gi {
                                assert(endpoints_ok(s, gstart, j, pivot as int, pivot_r as int, m,
                                    eps));
                            }
                        }
                    }
                }
                let mid128: i128 = div_floor_i128(nlo + nhi, 2);
                proof {
                    assert(nlo <= mid128 <= nhi) by (nonlinear_arith)
                        requires
                            nlo <= nhi,
                            2 * mid128 <= nlo + nhi < 2 * (mid128 + 1);
                }
                let mid: i64 = mid128 as i64;
                proof {
                    assert(run_within(s, gstart, j0, gi + 1, pivot as int, pivot_r as int,
                        mid as int, eps));
                    assert(endpoints_ok(s, gstart, j0, pivot as int, pivot_r as int, mid as int,
                        eps));
                    lemma_value_at_index(gstart, s, rating_eval(), j0, run_start as int);
                    assert(i64::MIN <= s[j0].data.spec_at(0) - eps && s[j0].data.spec_at(0) + eps
                        <= i64::MAX);
                    assert(i64::MIN <= pivot_r + mid * (run_start - pivot) <= i64::MAX);
                }
                let new_rating: i64 = add_mul(pivot_r, mid, run_start - pivot);
                cur = Segment {
                    end_point: seg.end_point,
                    data: RatingInfo { rating: new_rating, delta: mid },
                };
                lo = nlo;
                hi = nhi;
                proof {
                    assert forall|j: int| j0 <= j < gi + 1 implies #[trigger] run_line_close(
                        s, gstart, j, run_start as int, cur.data, eps) by {
                        assert(endpoints_ok(s, gstart, j, pivot as int, pivot_r as int,
                            mid as int, eps));
                        lemma_line_rebase(pivot_r as int, mid as int, pivot as int,
                            run_start as int, seg_begin(gstart, s, j));
                        lemma_line_rebase(pivot_r as int, mid as int, pivot as int,
                            run_start as int, s[j].end_point - 1);
                    }
                }
            } else {
                // No slope fits all endpoints: flush and start a new run.
                agg_flush(&mut out, cur, run_start, Ghost(s), Ghost(gstart), Ghost(j0), Ghost(gi),
                    Ghost(eps));
                run_start = b;
                proof {
                    j0 = gi;
                }
                let span = PointSpan::new(b, seg.end_point);
                let pv: Point = span.half();
                proof {
                    assert(i64::MIN <= s[gi].data.spec_at(pv - b) <= i64::MAX);
                    lemma_value_at_index(gstart, s, rating_eval(), gi, pv as int);
                }
                let pvr: i64 = add_mul(seg.data.rating, seg.data.delta, pv - b);
                pivot = pv;
                pivot_r = pvr;
                let f1 = slope_interval(pivot_r, pivot, b, seg.data.rating, epsilon);
                let f2 = slope_interval(pivot_r, pivot, e1, sv2, epsilon);
                lo = if f1.0 > f2.0 {
                    f1.0
                } else {
                    f2.0
                };
                hi = if f1.1 < f2.1 {
                    f1.1
                } else {
                    f2.1
                };
                cur = seg;
                proof {
                    assert(run_line_close(s, gstart, gi, run_start as int, cur.data, eps));
                    assert forall|m: int| lo <= m <= hi implies #[trigger] run_within(
                        s, gstart, j0, gi + 1, pivot as int, pivot_r as int, m, eps) by {
                        assert(fits_eps(pivot_r as int, m, pivot as int, b as int, rating_at(
                            gstart, s, b as int), eps));
                        assert(fits_eps(pivot_r as int, m, pivot as int, e1 as int, rating_at(
                            gstart, s, e1 as int), eps));
                        assert(endpoints_ok(s, gstart, gi, pivot as int, pivot_r as int, m, eps));
                    }
                }
            }
            i = i + 1;
        }
        agg_flush(&mut out, cur, run_start, Ghost(s), Ghost(gstart), Ghost(j0), Ghost(n as int),
            Ghost(eps));
        RatingBuffer { start: self.start, buffer: out }
    }
}


/// The output reproduces both channels of the input dual signal at `t`.
pub open spec fn dual_match(
    s: Seq<DualSegment>,
    g: int,
    out: Seq<DualFullSegment>,
    t: int,
) -> bool {
    &&& dual_rating_at(out, t) == seg_dual_rating_at(g, s, t)
    &&& dual_offset_at(out, t) == seg_dual_offset_at(g, s, t)
}

/// The pending merged lines, anchored at `span_start`, reproduce both
/// channels of the input at `t`.
pub open spec fn pending_match(
    s: Seq<DualSegment>,
    g: int,
    span_start: int,
    data: DualInfo,
    t: int,
) -> bool {
    &&& data.rating_info.spec_at(t - span_start) == seg_dual_rating_at(g, s, t)
    &&& data.offset_info.spec_at(t - span_start) == seg_dual_offset_at(g, s, t)
}

/// Dual segment `i` merely continues segment `i - 1`'s lines: the same
/// rating slope and drag, with exactly abutting values on both channels.
pub open spec fn dual_run_continues(s: Seq<DualFullSegment>, i: int) -> bool {
    &&& s[i].data.rating_info.delta == s[i - 1].data.rating_info.delta
    &&& s[i].data.offset_info.drag == s[i - 1].data.offset_info.drag
    &&& s[i - 1].data.rating_info.spec_at(s[i - 1].span.end - s[i - 1].span.start) == s[
        i].data.rating_info.rating
    &&& s[i - 1].data.offset_info.spec_at(s[i - 1].span.end - s[i - 1].span.start) == s[
        i].data.offset_info.offset
}

/// No two adjacent dual segments could still be merged.
pub open spec fn dual_fully_merged(s: Seq<DualFullSegment>) -> bool {
    forall|i: int| 0 < i < s.len() ==> !#[trigger] dual_run_continues(s, i)
}

/// The pending dual data does not continue the last emitted segment's
/// lines.
pub open spec fn dual_merge_break(out: Seq<DualFullSegment>, data: DualInfo) -> bool {
    out.len() == 0 || !({
        &&& data.rating_info.delta == out.last().data.rating_info.delta
        &&& data.offset_info.drag == out.last().data.offset_info.drag
        &&& out.last().data.rating_info.spec_at(out.last().span.end - out.last().span.start)
            == data.rating_info.rating
        &&& out.last().data.offset_info.spec_at(out.last().span.end - out.last().span.start)
            == data.offset_info.offset
    })
}

/// Appending a dual segment that breaks the run keeps the output fully
/// merged.
proof fn lemma_dual_fully_merged_push(out: Seq<DualFullSegment>, x: DualFullSegment)
    requires
        dual_fully_merged(out),
        dual_merge_break(out, x.data),
    ensures
        dual_fully_merged(out.push(x)),
{
    let s2 = out.push(x);
    assert forall|i: int| 0 < i < s2.len() implies !#[trigger] dual_run_continues(s2, i) by {
        if i < out.len() {
            assert(!dual_run_continues(out, i));
            assert(s2[i] == out[i] && s2[i - 1] == out[i - 1]);
        } else {
            assert(s2[i] == x && s2[i - 1] == out.last());
        }
    }
}

/// Appending a pending merged dual segment whose lines reproduce the input
/// over its span.
#[verifier::rlimit(100)]
proof fn lemma_dual_simplified_push(
    g: int,
    s: Seq<DualSegment>,
    out: Seq<DualFullSegment>,
    span_start: i64,
    span_end: i64,
    data: DualInfo,
)
    requires
        wf_full(g, out),
        full_end(g, out) == span_start,
        g <= span_start < span_end,
        duals_representable(out),
        forall|l: int|
            #![trigger data.rating_info.spec_at(l)]
            #![trigger data.offset_info.spec_at(l)]
            0 <= l <= span_end - span_start ==> {
                &&& i64::MIN <= data.rating_info.spec_at(l) <= i64::MAX
                &&& i64::MIN <= data.offset_info.spec_at(l) <= i64::MAX
            },
        forall|t: int| g <= t < span_start ==> #[trigger] dual_match(s, g, out, t),
        forall|t: int|
            span_start <= t < span_end ==> #[trigger] pending_match(
                s, g, span_start as int, data, t),
    ensures
        wf_full(
            g,
            out.push(FullSegment { span: PointSpan { start: span_start, end: span_end }, data }),
        ),
        full_end(
            g,
            out.push(FullSegment { span: PointSpan { start: span_start, end: span_end }, data }),
        ) == span_end,
        duals_representable(
            out.push(FullSegment { span: PointSpan { start: span_start, end: span_end }, data }),
        ),
        forall|t: int|
            g <= t < span_end ==> #[trigger] dual_match(
                s,
                g,
                out.push(
                    FullSegment { span: PointSpan { start: span_start, end: span_end }, data },
                ),
                t,
            ),
{
    let x = FullSegment { span: PointSpan { start: span_start, end: span_end }, data };
    lemma_wf_full_push(g, out, x);
    crate::combine::lemma_duals_representable_push(out, x);
    assert forall|t: int| g <= t < span_end implies #[trigger] dual_match(
        s, g, out.push(x), t) by {
        lemma_full_value_at_push(g, out, dual_rating_eval(), x, t);
        lemma_full_value_at_push(g, out, dual_offset_eval(), x, t);
        if t < span_start {
            assert(dual_match(s, g, out, t));
        } else {
            assert(pending_match(s, g, span_start as int, data, t));
        }
    }
}

impl SegmentIterator<DualInfo> {
    /// Merges consecutive dual segments whose rating slope and drag agree
    /// and whose values abut exactly; both channels of the piecewise
    /// function are unchanged at every point of the signal.
    #[verifier::rlimit(100)]
    pub fn simplify(self) -> (r: DualFullSegmentIterator)
        requires
            self.wf(),
            dual_segs_representable(self.start as int, self.segs@),
            self.spec_end() - self.start <= i64::MAX,
        ensures
            r.start == self.start,
            r.wf(),
            r.spec_end() == self.spec_end(),
            duals_representable(r.segs@),
            dual_fully_merged(r.segs@),
            forall|t: int|
                self.start <= t < self.spec_end() ==> #[trigger] dual_match(
                    self.segs@, self.start as int, r.segs@, t),
    {
        let ghost gstart: int = self.start as int;
        let ghost s: Seq<DualSegment> = self.segs@;
        let ghost gend: int = self.spec_end();
        let n: usize = self.segs.len();
        if n == 0 {
            return FullSegmentIterator { start: self.start, segs: Vec::new() };
        }
        let mut out: Vec<DualFullSegment> = Vec::new();
        let mut cur_start: Point = self.start;
        let mut cur_data: DualInfo = self.segs[0].data;
        let mut cur_end: Point = self.segs[0].end_point;
        let mut i: usize = 1;
        proof {
            assert(seg_begin(gstart, s, 0) < s[0].end_point);
            lemma_seg_bounds(gstart, s, 0);
            assert forall|t: int| cur_start <= t < cur_end implies #[trigger] pending_match(
                s, gstart, cur_start as int, cur_data, t) by {
                lemma_value_at_index(gstart, s, dual_rating_eval(), 0, t);
                lemma_value_at_index(gstart, s, dual_offset_eval(), 0, t);
            }
        }
        while i < n
            invariant
                n == s.len(),
                s == self.segs@,
                gstart == self.start as int,
                gend == seq_end(gstart, s),
                gend - gstart <= i64::MAX,
                wf_seq(gstart, s),
                dual_segs_representable(gstart, s),
                1 <= i <= n,
                cur_end == s[i - 1].end_point,
                gstart <= cur_start < cur_end,
                cur_start <= seg_begin(gstart, s, i as int - 1),
                cur_data.rating_info.delta == s[i - 1].data.rating_info.delta,
                cur_data.rating_info.spec_at(seg_begin(gstart, s, i as int - 1) - cur_start) == s[
                    i - 1].data.rating_info.rating,
                cur_data.offset_info.drag == s[i - 1].data.offset_info.drag,
                cur_data.offset_info.spec_at(seg_begin(gstart, s, i as int - 1) - cur_start) == s[
                    i - 1].data.offset_info.offset,
                wf_full(gstart, out@),
                full_end(gstart, out@) == cur_start,
                duals_representable(out@),
                dual_fully_merged(out@),
                dual_merge_break(out@, cur_data),
                forall|t: int|
                    gstart <= t < cur_start ==> #[trigger] dual_match(s, gstart, out@, t),
                forall|t: int|
                    cur_start <= t < cur_end ==> #[trigger] pending_match(
                        s, gstart, cur_start as int, cur_data, t),
            decreases n - i,
        {
            let ghost gi: int = i as int;
            let ghost shift: int = seg_begin(gstart, s, gi - 1) - cur_start;
            let seg = self.segs[i];
            proof {
                assert(seg_begin(gstart, s, gi) < s[gi].end_point);
                lemma_seg_bounds(gstart, s, gi);
                lemma_seg_bounds(gstart, s, gi - 1);
                assert forall|l: int|
                    #![trigger cur_data.rating_info.spec_at(l)]
                    #![trigger cur_data.offset_info.spec_at(l)]
                    0 <= l <= cur_end - cur_start implies {
                    &&& i64::MIN <= cur_data.rating_info.spec_at(l) <= i64::MAX
                    &&& i64::MIN <= cur_data.offset_info.spec_at(l) <= i64::MAX
                } by {
                    if l >= shift {
                        lemma_line_rebase(cur_data.rating_info.rating as int,
                            cur_data.rating_info.delta as int, 0, shift, l);
                        if cur_data.offset_info.drag {
                            lemma_line_rebase(cur_data.offset_info.offset as int, 1, 0, shift, l);
                        }
                        assert(i64::MIN <= s[gi - 1].data.rating_info.spec_at(l - shift)
                            <= i64::MAX);
                        assert(i64::MIN <= s[gi - 1].data.offset_info.spec_at(l - shift)
                            <= i64::MAX);
                    } else {
                        assert(pending_match(s, gstart, cur_start as int, cur_data,
                            cur_start + l));
                        lemma_dual_value_bounded(gstart, s, cur_start + l);
                    }
                }
                assert(i64::MIN <= cur_data.rating_info.spec_at(cur_end - cur_start) <= i64::MAX);
                assert(i64::MIN <= cur_data.offset_info.spec_at(cur_end - cur_start) <= i64::MAX);
            }
            let excl_r: i64 = add_mul(cur_data.rating_info.rating, cur_data.rating_info.delta,
                cur_end - cur_start);
            let excl_o: i64 = cur_data.offset_info.advanced_offset(cur_end - cur_start);
            if seg.data.rating_info.delta == cur_data.rating_info.delta
                && seg.data.offset_info.drag == cur_data.offset_info.drag && excl_r
                == seg.data.rating_info.rating && excl_o == seg.data.offset_info.offset {
                proof {
                    assert forall|t: int|
                        cur_end <= t < seg.end_point implies #[trigger] pending_match(
                        s, gstart, cur_start as int, cur_data, t) by {
                        lemma_value_at_index(gstart, s, dual_rating_eval(), gi, t);
                        lemma_value_at_index(gstart, s, dual_offset_eval(), gi, t);
                        lemma_line_rebase(cur_data.rating_info.rating as int,
                            cur_data.rating_info.delta as int, cur_start as int, cur_end as int,
                            t);
                        if cur_data.offset_info.drag {
                            lemma_line_rebase(cur_data.offset_info.offset as int, 1,
                                cur_start as int, cur_end as int, t);
                        }
                    }
                    lemma_line_rebase(cur_data.rating_info.rating as int,
                        cur_data.rating_info.delta as int, cur_start as int, cur_end as int,
                        cur_end as int);
                    if cur_data.offset_info.drag {
                        lemma_line_rebase(cur_data.offset_info.offset as int, 1, cur_start as int,
                            cur_end as int, cur_end as int);
                    }
                }
                cur_end = seg.end_point;
            } else {
                proof {
                    lemma_dual_simplified_push(gstart, s, out@, cur_start, cur_end, cur_data);
                    assert forall|t: int|
                        cur_end <= t < seg.end_point implies #[trigger] pending_match(
                        s, gstart, cur_end as int, seg.data, t) by {
                        lemma_value_at_index(gstart, s, dual_rating_eval(), gi, t);
                        lemma_value_at_index(gstart, s, dual_offset_eval(), gi, t);
                    }
                }
                proof {
                    lemma_dual_fully_merged_push(
                        out@,
                        FullSegment {
                            span: PointSpan { start: cur_start, end: cur_end },
                            data: cur_data,
                        },
                    );
                    assert(cur_data.rating_info.spec_at(cur_end - cur_start) == excl_r);
                    assert(cur_data.offset_info.spec_at(cur_end - cur_start) == excl_o);
                }
                out.push(
                    FullSegment { span: PointSpan { start: cur_start, end: cur_end }, data: cur_data },
                );
                proof {
                    assert(dual_merge_break(out@, seg.data));
                }
                cur_start = cur_end;
                cur_data = seg.data;
                cur_end = seg.end_point;
            }
            i = i + 1;
        }
        proof {
            let shift: int = seg_begin(gstart, s, n as int - 1) - cur_start;
            assert forall|l: int|
                #![trigger cur_data.rating_info.spec_at(l)]
                #![trigger cur_data.offset_info.spec_at(l)]
                0 <= l <= cur_end - cur_start implies {
                &&& i64::MIN <= cur_data.rating_info.spec_at(l) <= i64::MAX
                &&& i64::MIN <= cur_data.offset_info.spec_at(l) <= i64::MAX
            } by {
                if l >= shift {
                    lemma_line_rebase(cur_data.rating_info.rating as int,
                        cur_data.rating_info.delta as int, 0, shift, l);
                    if cur_data.offset_info.drag {
                        lemma_line_rebase(cur_data.offset_info.offset as int, 1, 0, shift, l);
                    }
                    assert(i64::MIN <= s[n - 1].data.rating_info.spec_at(l - shift) <= i64::MAX);
                    assert(i64::MIN <= s[n - 1].data.offset_info.spec_at(l - shift) <= i64::MAX);
                } else {
                    assert(pending_match(s, gstart, cur_start as int, cur_data, cur_start + l));
                    lemma_dual_value_bounded(gstart, s, cur_start + l);
                }
            }
            lemma_dual_simplified_push(gstart, s, out@, cur_start, cur_end, cur_data);
            lemma_dual_fully_merged_push(
                out@,
                FullSegment { span: PointSpan { start: cur_start, end: cur_end }, data: cur_data },
            );
        }
        out.push(
            FullSegment { span: PointSpan { start: cur_start, end: cur_end }, data: cur_data },
        );
        FullSegmentIterator { start: self.start, segs: out }
    }
}


/// The rating half of a dual run.
pub open spec fn project_ratings(s: Seq<DualSegment>) -> Seq<RatingSegment> {
    Seq::new(s.len(), |i: int| Segment { end_point: s[i].end_point, data: s[i].data.rating_info })
}

/// The offset half of a dual run.
pub open spec fn project_offsets(s: Seq<DualSegment>) -> Seq<OffsetSegment> {
    Seq::new(s.len(), |i: int| Segment { end_point: s[i].end_point, data: s[i].data.offset_info })
}

/// The projections carry the same values as the dual run.
pub proof fn lemma_project_values(g: int, s: Seq<DualSegment>, t: int)
    ensures
        rating_at(g, project_ratings(s), t) == seg_dual_rating_at(g, s, t),
        offset_at(g, project_offsets(s), t) == seg_dual_offset_at(g, s, t),
    decreases s.len(),
{
    if s.len() > 0 {
        assert(project_ratings(s).skip(1) =~= project_ratings(s.skip(1)));
        assert(project_offsets(s).skip(1) =~= project_offsets(s.skip(1)));
        lemma_project_values(s[0].end_point as int, s.skip(1), t);
    }
}

/// The pending merged offset line reproduces the input at `t`.
pub open spec fn pending_offset_match(
    s: Seq<OffsetSegment>,
    g: int,
    span_start: int,
    data: OffsetInfo,
    t: int,
) -> bool {
    data.spec_at(t - span_start) == offset_at(g, s, t)
}

/// Within the signal, the offset of a representable run fits in `i64`.
proof fn lemma_offset_at_bounded(start: int, s: Seq<OffsetSegment>, t: int)
    requires
        wf_seq(start, s),
        offsets_representable(start, s),
        s.len() > 0,
        start <= t < seq_end(start, s),
    ensures
        i64::MIN <= offset_at(start, s, t) <= i64::MAX,
{
    lemma_segment_of_point(start, s, t);
    let i = choose|i: int|
        0 <= i < s.len() && #[trigger] seg_begin(start, s, i) <= t && t < s[i].end_point;
    lemma_value_at_index(start, s, offset_eval(), i, t);
    assert(i64::MIN <= s[i].data.spec_at(t - seg_begin(start, s, i)) <= i64::MAX);
}

/// Appending a pending merged offset segment whose line reproduces the
/// input over its span.
#[verifier::rlimit(100)]
proof fn lemma_offset_simplified_push(
    g: int,
    s: Seq<OffsetSegment>,
    out: Seq<OffsetSegment>,
    span_start: i64,
    cur: OffsetSegment,
)
    requires
        wf_seq(g, out),
        seq_end(g, out) == span_start,
        g <= span_start < cur.end_point,
        offsets_representable(g, out),
        forall|l: int|
            0 <= l <= cur.end_point - span_start ==> i64::MIN <= (#[trigger] cur.data.spec_at(l))
                <= i64::MAX,
        forall|t: int|
            g <= t < span_start ==> #[trigger] offset_at(g, out, t) == offset_at(g, s, t),
        forall|t: int|
            span_start <= t < cur.end_point ==> #[trigger] pending_offset_match(
                s, g, span_start as int, cur.data, t),
    ensures
        wf_seq(g, out.push(cur)),
        seq_end(g, out.push(cur)) == cur.end_point,
        offsets_representable(g, out.push(cur)),
        forall|t: int|
            g <= t < cur.end_point ==> #[trigger] offset_at(g, out.push(cur), t) == offset_at(
                g, s, t),
{
    lemma_wf_push(g, out, cur);
    let s2 = out.push(cur);
    assert forall|i: int, len: int|
        0 <= i < s2.len() && 0 <= len <= s2[i].end_point - seg_begin(g, s2, i) implies i64::MIN
        <= (#[trigger] s2[i].data.spec_at(len)) <= i64::MAX by {
        if i < out.len() {
            assert(s2[i] == out[i]);
            assert(seg_begin(g, s2, i) == seg_begin(g, out, i));
            assert(i64::MIN <= out[i].data.spec_at(len) <= i64::MAX);
        } else {
            assert(s2[i] == cur);
            assert(seg_begin(g, s2, i) == seq_end(g, out));
            assert(i64::MIN <= cur.data.spec_at(len) <= i64::MAX);
        }
    }
    assert forall|t: int| g <= t < cur.end_point implies #[trigger] offset_at(
        g, out.push(cur), t) == offset_at(g, s, t) by {
        lemma_value_at_push(g, out, offset_eval(), cur, t);
        if t >= span_start {
            assert(pending_offset_match(s, g, span_start as int, cur.data, t));
        } else {
            assert(offset_at(g, out, t) == offset_at(g, s, t));
        }
    }
}

/// Exact simplification of an offset run: adjacent segments with the same
/// drag whose offsets abut exactly are merged; values are unchanged.
#[verifier::rlimit(100)]
fn simplify_offset_run(start: Point, segs: Vec<OffsetSegment>) -> (r: Vec<OffsetSegment>)
    requires
        wf_seq(start as int, segs@),
        offsets_representable(start as int, segs@),
        seq_end(start as int, segs@) - start <= i64::MAX,
    ensures
        wf_seq(start as int, r@),
        seq_end(start as int, r@) == seq_end(start as int, segs@),
        offsets_representable(start as int, r@),
        r@.len() == 0 <==> segs@.len() == 0,
        forall|t: int|
            start <= t < seq_end(start as int, segs@) ==> #[trigger] offset_at(
                start as int, r@, t) == offset_at(start as int, segs@, t),
{
    let ghost gstart: int = start as int;
    let ghost s: Seq<OffsetSegment> = segs@;
    let n: usize = segs.len();
    if n == 0 {
        return Vec::new();
    }
    let mut out: Vec<OffsetSegment> = Vec::new();
    let mut cur_start: Point = start;
    let mut cur: OffsetSegment = segs[0];
    let mut i: usize = 1;
    proof {
        assert(seg_begin(gstart, s, 0) < s[0].end_point);
        lemma_seg_bounds(gstart, s, 0);
        assert forall|t: int| cur_start <= t < cur.end_point implies
            #[trigger] pending_offset_match(s, gstart, cur_start as int, cur.data, t) by {
            lemma_value_at_index(gstart, s, offset_eval(), 0, t);
        }
    }
    while i < n
        invariant
            n == s.len(),
            s == segs@,
            gstart == start as int,
            seq_end(gstart, s) - gstart <= i64::MAX,
            wf_seq(gstart, s),
            offsets_representable(gstart, s),
            1 <= i <= n,
            cur.end_point == s[i - 1].end_point,
            gstart <= cur_start < cur.end_point,
            cur_start <= seg_begin(gstart, s, i as int - 1),
            cur.data.drag == s[i - 1].data.drag,
            cur.data.spec_at(seg_begin(gstart, s, i as int - 1) - cur_start) == s[i
                - 1].data.offset,
            wf_seq(gstart, out@),
            seq_end(gstart, out@) == cur_start,
            offsets_representable(gstart, out@),
            forall|t: int|
                gstart <= t < cur_start ==> #[trigger] offset_at(gstart, out@, t) == offset_at(
                    gstart, s, t),
            forall|t: int|
                cur_start <= t < cur.end_point ==> #[trigger] pending_offset_match(
                    s, gstart, cur_start as int, cur.data, t),
        decreases n - i,
    {
        let ghost gi: int = i as int;
        let ghost shift: int = seg_begin(gstart, s, gi - 1) - cur_start;
        let ghost cd: int = if cur.data.drag {
            1int
        } else {
            0int
        };
        let seg = segs[i];
        proof {
            assert(seg_begin(gstart, s, gi) < s[gi].end_point);
            lemma_seg_bounds(gstart, s, gi);
            lemma_seg_bounds(gstart, s, gi - 1);
            assert forall|l: int|
                0 <= l <= cur.end_point - cur_start implies i64::MIN <= (
            #[trigger] cur.data.spec_at(l)) <= i64::MAX by {
                if l >= shift {
                    lemma_line_rebase(cur.data.offset as int, cd, 0, shift, l);
                    assert(i64::MIN <= s[gi - 1].data.spec_at(l - shift) <= i64::MAX);
                } else {
                    assert(pending_offset_match(s, gstart, cur_start as int, cur.data,
                        cur_start + l));
                    lemma_offset_at_bounded(gstart, s, cur_start + l);
                }
            }
            assert(i64::MIN <= cur.data.spec_at(cur.end_point - cur_start) <= i64::MAX);
        }
        let excl: i64 = cur.data.advanced_offset(cur.end_point - cur_start);
        if seg.data.drag == cur.data.drag && excl == seg.data.offset {
            proof {
                assert forall|t: int|
                    cur.end_point <= t < seg.end_point implies #[trigger] pending_offset_match(
                    s, gstart, cur_start as int, cur.data, t) by {
                    lemma_value_at_index(gstart, s, offset_eval(), gi, t);
                    lemma_line_rebase(cur.data.offset as int, cd, cur_start as int,
                        cur.end_point as int, t);
                }
                lemma_line_rebase(cur.data.offset as int, cd, cur_start as int,
                    cur.end_point as int, cur.end_point as int);
            }
            cur = Segment { end_point: seg.end_point, data: cur.data };
        } else {
            proof {
                lemma_offset_simplified_push(gstart, s, out@, cur_start, cur);
                assert forall|t: int|
                    cur.end_point <= t < seg.end_point implies #[trigger] pending_offset_match(
                    s, gstart, cur.end_point as int, seg.data, t) by {
                    lemma_value_at_index(gstart, s, offset_eval(), gi, t);
                }
            }
            out.push(cur);
            cur_start = cur.end_point;
            cur = seg;
        }
        i = i + 1;
    }
    proof {
        let shift: int = seg_begin(gstart, s, n as int - 1) - cur_start;
        let cd: int = if cur.data.drag {
            1int
        } else {
            0int
        };
        assert forall|l: int|
            0 <= l <= cur.end_point - cur_start implies i64::MIN <= (#[trigger] cur.data.spec_at(
            l)) <= i64::MAX by {
            if l >= shift {
                lemma_line_rebase(cur.data.offset as int, cd, 0, shift, l);
                assert(i64::MIN <= s[n - 1].data.spec_at(l - shift) <= i64::MAX);
            } else {
                assert(pending_offset_match(s, gstart, cur_start as int, cur.data, cur_start + l));
                lemma_offset_at_bounded(gstart, s, cur_start + l);
            }
        }
        lemma_offset_simplified_push(gstart, s, out@, cur_start, cur);
    }
    out.push(cur);
    out
}


impl SegmentIterator<DualInfo> {
    /// Saves the two halves of a dual signal separately: the ratings are
    /// exactly simplified and then aggressively simplified with `epsilon`;
    /// the offsets are exactly simplified and preserved at every point.
    #[verifier::rlimit(100)]
    pub fn save_separate(self, epsilon: RatingDelta) -> (r: SeparateDualBuffer)
        requires
            self.wf(),
            epsilon >= 0,
            dual_segs_representable(self.start as int, self.segs@),
            self.spec_end() - self.start <= i64::MAX,
            forall|t: int|
                self.start <= t < self.spec_end() ==> {
                    &&& i64::MIN <= #[trigger] seg_dual_rating_at(
                        self.start as int, self.segs@, t) - epsilon
                    &&& seg_dual_rating_at(self.start as int, self.segs@, t) + epsilon <= i64::MAX
                },
        ensures
            r.rating_buffer.start == self.start,
            r.offset_buffer.start == self.start,
            r.rating_buffer.wf(),
            r.offset_buffer.wf(),
            r.rating_buffer.spec_end() == self.spec_end(),
            r.offset_buffer.spec_end() == self.spec_end(),
            ratings_bounded(self.start as int, r.rating_buffer.buffer@),
            offsets_representable(self.start as int, r.offset_buffer.buffer@),
            forall|t: int|
                self.start <= t < self.spec_end() ==> #[trigger] offset_at(
                    self.start as int, r.offset_buffer.buffer@, t) == seg_dual_offset_at(
                    self.start as int, self.segs@, t),
            epsilon == 0 ==> forall|t: int|
                self.start <= t < self.spec_end() ==> #[trigger] rating_at(
                    self.start as int, r.rating_buffer.buffer@, t) == seg_dual_rating_at(
                    self.start as int, self.segs@, t),
    {
        let ghost g: int = self.start as int;
        let ghost s: Seq<DualSegment> = self.segs@;
        let ghost gend: int = self.spec_end();
        let n: usize = self.segs.len();
        let mut rvec: Vec<RatingSegment> = Vec::new();
        let mut ovec: Vec<OffsetSegment> = Vec::new();
        let mut i: usize = 0;
        while i < n
            invariant
                n == s.len(),
                s == self.segs@,
                0 <= i <= n,
                rvec@.len() == i,
                ovec@.len() == i,
                forall|j: int| 0 <= j < i ==> #[trigger] rvec@[j] == project_ratings(s)[j],
                forall|j: int| 0 <= j < i ==> #[trigger] ovec@[j] == project_offsets(s)[j],
            decreases n - i,
        {
            let seg = self.segs[i];
            rvec.push(Segment { end_point: seg.end_point, data: seg.data.rating_info });
            ovec.push(Segment { end_point: seg.end_point, data: seg.data.offset_info });
            i = i + 1;
        }
        proof {
            assert(rvec@ =~= project_ratings(s));
            assert(ovec@ =~= project_offsets(s));
            lemma_wf_same_ends(g, s, project_ratings(s));
            lemma_wf_same_ends(g, s, project_offsets(s));
            if n > 0 {
                assert(project_ratings(s)[n - 1].end_point == s[n - 1].end_point);
                assert(project_offsets(s)[n - 1].end_point == s[n - 1].end_point);
            }
            assert(seq_end(g, project_ratings(s)) == gend);
            assert(seq_end(g, project_offsets(s)) == gend);
            assert forall|i2: int, l: int|
                0 <= i2 < project_ratings(s).len() && 0 <= l <= project_ratings(s)[i2].end_point
                    - seg_begin(g, project_ratings(s), i2) implies i64::MIN <= (
            #[trigger] project_ratings(s)[i2].data.spec_at(l)) <= i64::MAX by {
                assert(seg_begin(g, project_ratings(s), i2) == seg_begin(g, s, i2));
                assert(i64::MIN <= s[i2].data.rating_info.spec_at(l) <= i64::MAX);
            }
            assert forall|i2: int, l: int|
                0 <= i2 < project_offsets(s).len() && 0 <= l <= project_offsets(s)[i2].end_point
                    - seg_begin(g, project_offsets(s), i2) implies i64::MIN <= (
            #[trigger] project_offsets(s)[i2].data.spec_at(l)) <= i64::MAX by {
                assert(seg_begin(g, project_offsets(s), i2) == seg_begin(g, s, i2));
                assert(i64::MIN <= s[i2].data.offset_info.spec_at(l) <= i64::MAX);
            }
        }
        let osimp: Vec<OffsetSegment> = simplify_offset_run(self.start, ovec);
        proof {
            assert forall|t: int| g <= t < gend implies #[trigger] offset_at(g, osimp@, t)
                == seg_dual_offset_at(g, s, t) by {
                lemma_project_values(g, s, t);
            }
        }
        let rit: RatingIterator = SegmentIterator { start: self.start, segs: rvec };
        let rbuf1: RatingBuffer = rit.save_simplified();
        proof {
            assert forall|i2: int, l: int|
                0 <= i2 < rbuf1.buffer@.len() && 0 <= l <= rbuf1.buffer@[i2].end_point - seg_begin(
                    g, rbuf1.buffer@, i2) - 1 implies {
                &&& i64::MIN <= (#[trigger] rbuf1.buffer@[i2].data.spec_at(l)) - epsilon
                &&& rbuf1.buffer@[i2].data.spec_at(l) + epsilon <= i64::MAX
            } by {
                lemma_seg_bounds(g, rbuf1.buffer@, i2);
                assert(seg_begin(g, rbuf1.buffer@, i2) < rbuf1.buffer@[i2].end_point);
                let t: int = seg_begin(g, rbuf1.buffer@, i2) + l;
                lemma_value_at_index(g, rbuf1.buffer@, rating_eval(), i2, t);
                assert(rating_at(g, rbuf1.buffer@, t) == rating_at(g, project_ratings(s), t));
                lemma_project_values(g, s, t);
                assert(i64::MIN <= seg_dual_rating_at(g, s, t) - epsilon
                    && seg_dual_rating_at(g, s, t) + epsilon <= i64::MAX);
            }
        }
        let rbuf2: RatingBuffer = rbuf1.into_iter().save_aggressively_simplified(epsilon);
        proof {
            if epsilon == 0 {
                assert forall|t: int| g <= t < gend implies #[trigger] rating_at(
                    g, rbuf2.buffer@, t) == seg_dual_rating_at(g, s, t) by {
                    assert(rating_at(g, rbuf2.buffer@, t) == rating_at(g, rbuf1.buffer@, t));
                    assert(rating_at(g, rbuf1.buffer@, t) == rating_at(g, project_ratings(s), t));
                    lemma_project_values(g, s, t);
                }
            }
        }
        SeparateDualBuffer {
            rating_buffer: rbuf2,
            offset_buffer: OffsetBuffer { start: self.start, buffer: osimp },
        }
    }
}

} // verus!
