use vstd::prelude::*;
use crate::segments::{
    Segment, RatingSegment, DualFullSegment, RatingInfo, wf_seq, seq_end, seg_begin, rating_at,
    rating_eval, dual_rating_at, lemma_wf_push, lemma_value_at_push, lemma_wf_skip,
};
use crate::streams::{extend_seq, clamp_seq, shift_seq};
use crate::combine::{spec_max, running_max};

verus! {

/// Extending a signal to `end` is idempotent: a second extension to the
/// same end changes nothing.
pub proof fn lemma_extend_to_idempotent(start: int, s: Seq<RatingSegment>, end: int)
    requires
        wf_seq(start, s),
        seq_end(start, s) <= end,
        s.len() == 0 ==> start < end,
        i64::MIN <= end <= i64::MAX,
    ensures
        extend_seq(start, extend_seq(start, s, end), end) == extend_seq(start, s, end),
{
    let e1 = extend_seq(start, s, end);
    assert(seq_end(start, e1) == end);
}

/// The smaller of two values.
pub open spec fn spec_min(x: int, y: int) -> int {
    if x < y {
        x
    } else {
        y
    }
}

/// Clamping twice clamps at the smaller bound.
pub proof fn lemma_clamp_clamp(s: Seq<RatingSegment>, c1: int, c2: int)
    requires
        i64::MIN <= c1 <= i64::MAX,
        i64::MIN <= c2 <= i64::MAX,
    ensures
        clamp_seq(clamp_seq(s, c1), c2) == clamp_seq(s, spec_min(c1, c2)),
    decreases s.len(),
{
    if s.len() == 0 {
        assert(clamp_seq(clamp_seq(s, c1), c2) =~= clamp_seq(s, spec_min(c1, c2)));
    } else if s[0].end_point < spec_min(c1, c2) {
        lemma_clamp_clamp(s.skip(1), c1, c2);
        let inner = clamp_seq(s, c1);
        assert(inner == seq![s[0]] + clamp_seq(s.skip(1), c1));
        assert(inner[0] == s[0]);
        assert(inner.skip(1) =~= clamp_seq(s.skip(1), c1));
        assert(clamp_seq(inner, c2) =~= seq![s[0]] + clamp_seq(clamp_seq(s.skip(1), c1), c2));
        assert(clamp_seq(clamp_seq(s, c1), c2) =~= clamp_seq(s, spec_min(c1, c2)));
    } else if s[0].end_point < c1 {
        // Here the second bound is the smaller one and cuts the head.
        let inner = clamp_seq(s, c1);
        assert(inner == seq![s[0]] + clamp_seq(s.skip(1), c1));
        assert(inner[0] == s[0]);
        assert(clamp_seq(inner, c2) =~= seq![
            Segment { end_point: c2 as i64, data: s[0].data },
        ]);
        assert(clamp_seq(clamp_seq(s, c1), c2) =~= clamp_seq(s, spec_min(c1, c2)));
    } else {
        let inner = clamp_seq(s, c1);
        assert(inner =~= seq![Segment { end_point: c1 as i64, data: s[0].data }]);
        if c1 < c2 {
            assert(clamp_seq(inner, c2) =~= seq![
                Segment { end_point: c1 as i64, data: s[0].data },
            ] + clamp_seq(inner.skip(1), c2));
            assert(inner.skip(1) =~= Seq::<RatingSegment>::empty());
            assert(clamp_seq(clamp_seq(s, c1), c2) =~= clamp_seq(s, spec_min(c1, c2)));
        } else {
            assert(clamp_seq(inner, c2) =~= seq![
                Segment { end_point: c2 as i64, data: s[0].data },
            ]);
            assert(clamp_seq(clamp_seq(s, c1), c2) =~= clamp_seq(s, spec_min(c1, c2)));
        }
    }
}

/// Clamping is idempotent.
pub proof fn lemma_clamp_end_idempotent(s: Seq<RatingSegment>, c: int)
    requires
        i64::MIN <= c <= i64::MAX,
    ensures
        clamp_seq(clamp_seq(s, c), c) == clamp_seq(s, c),
{
    lemma_clamp_clamp(s, c, c);
}

/// Clamping commutes with itself.
pub proof fn lemma_clamp_end_commutes(s: Seq<RatingSegment>, c1: int, c2: int)
    requires
        i64::MIN <= c1 <= i64::MAX,
        i64::MIN <= c2 <= i64::MAX,
    ensures
        clamp_seq(clamp_seq(s, c1), c2) == clamp_seq(clamp_seq(s, c2), c1),
{
    lemma_clamp_clamp(s, c1, c2);
    lemma_clamp_clamp(s, c2, c1);
}

/// Two successive shifts compose additively.
pub proof fn lemma_shift_additive<D>(s: Seq<Segment<D>>, t1: int, t2: int)
    requires
        forall|i: int|
            0 <= i < s.len() ==> i64::MIN <= (#[trigger] s[i]).end_point + t1 <= i64::MAX,
        forall|i: int|
            0 <= i < s.len() ==> i64::MIN <= (#[trigger] s[i]).end_point + t1 + t2 <= i64::MAX,
    ensures
        shift_seq(shift_seq(s, t1), t2) == shift_seq(s, t1 + t2),
{
    assert forall|i: int| 0 <= i < s.len() implies #[trigger] shift_seq(shift_seq(s, t1), t2)[i]
        == shift_seq(s, t1 + t2)[i] by {
        assert(shift_seq(s, t1)[i].end_point == s[i].end_point + t1);
    }
    assert(shift_seq(shift_seq(s, t1), t2) =~= shift_seq(s, t1 + t2));
}

/// The plain prefix maximum of a dual signal's rating, with no floor.
pub open spec fn prefix_max(s: Seq<DualFullSegment>, start: int, t: int) -> int
    decreases t - start,
{
    if t <= start {
        dual_rating_at(s, start)
    } else {
        spec_max(prefix_max(s, start, t - 1), dual_rating_at(s, t))
    }
}

/// When the signal starts at a nonnegative rating, the running maximum of
/// the left-to-right pass equals the plain prefix maximum at every point.
pub proof fn lemma_running_maximum_exact(s: Seq<DualFullSegment>, start: int, t: int)
    requires
        start <= t,
        dual_rating_at(s, start) >= 0,
    ensures
        running_max(s, start, t) == prefix_max(s, start, t),
    decreases t - start,
{
    if t > start {
        lemma_running_maximum_exact(s, start, t - 1);
    }
}


/// Truncating at `c` keeps the signal's values: the clamped signal ends at
/// the smaller of `c` and the old end, and agrees with the input at every
/// point before that.
pub proof fn lemma_clamp_end_values(start: int, s: Seq<RatingSegment>, c: int)
    requires
        wf_seq(start, s),
        i64::MIN <= start < c <= i64::MAX,
    ensures
        s.len() > 0 ==> clamp_seq(s, c).len() > 0,
        s.len() > 0 ==> seq_end(start, clamp_seq(s, c)) == spec_min(seq_end(start, s), c),
        forall|t: int|
            start <= t < spec_min(seq_end(start, s), c) ==> #[trigger] rating_at(
                start, clamp_seq(s, c), t) == rating_at(start, s, t),
    decreases s.len(),
{
    let r = clamp_seq(s, c);
    if s.len() == 0 {
    } else if s[0].end_point < c {
        assert(seg_begin(start, s, 0) < s[0].end_point);
        lemma_wf_skip(start, s);
        lemma_clamp_end_values(s[0].end_point as int, s.skip(1), c);
        let r2 = clamp_seq(s.skip(1), c);
        assert(r == seq![s[0]] + r2);
        assert(r[0] == s[0]);
        assert(r.skip(1) =~= r2);
        if s.len() == 1 {
            assert(s.skip(1).len() == 0);
            assert(r =~= s);
        } else {
            assert(s.skip(1).len() > 0);
            assert(seq_end(s[0].end_point as int, s.skip(1)) == seq_end(start, s));
            assert(r2.len() > 0);
            assert(seq_end(start, r) == seq_end(s[0].end_point as int, r2));
        }
        assert forall|t: int|
            start <= t < spec_min(seq_end(start, s), c) implies #[trigger] rating_at(
            start, r, t) == rating_at(start, s, t) by {
            if s.len() == 1 {
            } else {
                if t < s[0].end_point {
                } else {
                    assert(rating_at(start, s, t) == rating_at(
                        s[0].end_point as int, s.skip(1), t));
                    assert(r.len() > 1);
                    assert(rating_at(start, r, t) == rating_at(s[0].end_point as int, r2, t));
                }
            }
        }
    } else {
        assert(seg_begin(start, s, 0) < s[0].end_point);
        assert(r =~= seq![Segment { end_point: c as i64, data: s[0].data }]);
        assert(seq_end(start, r) == c);
        crate::segments::lemma_seg_bounds(start, s, 0);
        assert forall|t: int| start <= t < c implies #[trigger] rating_at(start, r, t)
            == rating_at(start, s, t) by {
            assert(rating_at(start, r, t) == s[0].data.spec_at(t - start));
            assert(rating_at(start, s, t) == s[0].data.spec_at(t - start));
        }
    }
}

/// Extending to `end` keeps the signal's values and fills the gap up to
/// `end` with a zero rating.
pub proof fn lemma_extend_to_values(start: int, s: Seq<RatingSegment>, end: int)
    requires
        wf_seq(start, s),
        seq_end(start, s) <= end,
        s.len() == 0 ==> start < end,
        i64::MIN <= end <= i64::MAX,
    ensures
        forall|t: int|
            start <= t < seq_end(start, s) && s.len() > 0 ==> #[trigger] rating_at(
                start, extend_seq(start, s, end), t) == rating_at(start, s, t),
        forall|t: int|
            seq_end(start, s) <= t < end ==> #[trigger] rating_at(
                start, extend_seq(start, s, end), t) == 0,
{
    if seq_end(start, s) != end {
        let tail = Segment { end_point: end as i64, data: RatingInfo { rating: 0, delta: 0 } };
        lemma_wf_push(start, s, tail);
        assert forall|t: int|
            start <= t < seq_end(start, s) && s.len() > 0 implies #[trigger] rating_at(
            start, extend_seq(start, s, end), t) == rating_at(start, s, t) by {
            lemma_value_at_push(start, s, rating_eval(), tail, t);
        }
        assert forall|t: int| seq_end(start, s) <= t < end implies #[trigger] rating_at(
            start, extend_seq(start, s, end), t) == 0 by {
            lemma_value_at_push(start, s, rating_eval(), tail, t);
            assert(0 * (t - seq_end(start, s)) == 0) by (nonlinear_arith);
            assert(tail.data.spec_at(t - seq_end(start, s)) == 0);
        }
    }
}

} // verus!
