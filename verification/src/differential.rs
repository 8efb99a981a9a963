use vstd::prelude::*;
use crate::rating_type::{RatingDeltaDelta, add_mul};
use crate::segments::{
    Segment, RatingSegment, RatingInfo, Point, seg_begin, wf_seq, seq_end, lemma_wf_push,
    lemma_wf_same_ends, lemma_seg_bounds,
};
use crate::streams::{SegmentIterator, RatingIterator};

verus! {

/// Builds a rating signal from second differences: each added segment end
/// carries the change of slope taking effect there.
pub struct DifferentialRatingBufferBuilder {
    pub start: Point,
    pub end: Point,
    pub buffer: Vec<Segment<RatingDeltaDelta>>,
}

/// A rating signal stored as second differences of the rating function.
pub struct DifferentialRatingBuffer {
    pub start: Point,
    pub buffer: Vec<Segment<RatingDeltaDelta>>,
}

/// The rating run obtained by integrating a run of slope changes twice:
/// each segment starts with the accumulated rating and slope, the slope
/// then grows by the segment's difference value.
pub open spec fn integrate_seq(
    start: int,
    s: Seq<Segment<RatingDeltaDelta>>,
    rating: int,
    delta: int,
) -> Seq<RatingSegment>
    decreases s.len(),
{
    if s.len() == 0 {
        Seq::empty()
    } else {
        seq![
            Segment {
                end_point: s[0].end_point,
                data: RatingInfo { rating: rating as i64, delta: delta as i64 },
            },
        ] + integrate_seq(
            s[0].end_point as int,
            s.skip(1),
            rating + delta * (s[0].end_point - start),
            delta + s[0].data,
        )
    }
}

/// Integrating the run stays within `i64` at every step.
pub open spec fn integrable(
    start: int,
    s: Seq<Segment<RatingDeltaDelta>>,
    rating: int,
    delta: int,
) -> bool
    decreases s.len(),
{
    s.len() == 0 || {
        &&& i64::MIN <= rating <= i64::MAX
        &&& i64::MIN <= delta <= i64::MAX
        &&& i64::MIN <= rating + delta * (s[0].end_point - start) <= i64::MAX
        &&& i64::MIN <= delta + s[0].data <= i64::MAX
        &&& integrable(
            s[0].end_point as int,
            s.skip(1),
            rating + delta * (s[0].end_point - start),
            delta + s[0].data,
        )
    }
}

/// Integration keeps the segment ends.
pub proof fn lemma_integrate_ends(start: int, s: Seq<Segment<RatingDeltaDelta>>, rating: int, delta: int)
    ensures
        integrate_seq(start, s, rating, delta).len() == s.len(),
        forall|i: int|
            0 <= i < s.len() ==> (#[trigger] integrate_seq(start, s, rating, delta)[i]).end_point
                == s[i].end_point,
    decreases s.len(),
{
    if s.len() > 0 {
        lemma_integrate_ends(
            s[0].end_point as int,
            s.skip(1),
            rating + delta * (s[0].end_point - start),
            delta + s[0].data,
        );
    }
}

impl DifferentialRatingBufferBuilder {
    /// The builder's segments stay ordered and within the target span.
    pub open spec fn wf(self) -> bool {
        &&& self.start < self.end
        &&& wf_seq(self.start as int, self.buffer@)
    }

    pub fn new(start: Point, end: Point) -> (r: DifferentialRatingBufferBuilder)
        requires
            start < end,
        ensures
            r.start == start,
            r.end == end,
            r.buffer@ == Seq::<Segment<RatingDeltaDelta>>::empty(),
            r.wf(),
    {
        DifferentialRatingBufferBuilder { start, end, buffer: Vec::new() }
    }

    /// Adds a slope change taking effect at `segment_end`; a change at the
    /// end point of the last added segment merges into it.
    pub fn add_segment(&mut self, segment_end: Point, segment_end_delta_delta: RatingDeltaDelta)
        requires
            old(self).wf(),
            seq_end(old(self).start as int, old(self).buffer@) <= segment_end,
            old(self).buffer@.len() == 0 ==> old(self).start < segment_end,
            old(self).buffer@.len() > 0 && seq_end(old(self).start as int, old(self).buffer@)
                == segment_end ==> i64::MIN <= old(self).buffer@.last().data
                + segment_end_delta_delta <= i64::MAX,
        ensures
            final(self).start == old(self).start,
            final(self).end == old(self).end,
            final(self).wf(),
            final(self).buffer@ == if old(self).buffer@.len() > 0 && seq_end(
                old(self).start as int, old(self).buffer@) == segment_end {
                old(self).buffer@.update(
                    old(self).buffer@.len() - 1,
                    Segment {
                        end_point: segment_end,
                        data: (old(self).buffer@.last().data + segment_end_delta_delta) as i64,
                    },
                )
            } else {
                old(self).buffer@.push(
                    Segment { end_point: segment_end, data: segment_end_delta_delta },
                )
            },
            seq_end(final(self).start as int, final(self).buffer@) == segment_end,
    {
        let n: usize = self.buffer.len();
        if n > 0 {
            let last = self.buffer[n - 1];
            if last.end_point == segment_end {
                let merged = Segment {
                    end_point: segment_end,
                    data: last.data + segment_end_delta_delta,
                };
                self.buffer.set(n - 1, merged);
                proof {
                    lemma_wf_same_ends(self.start as int, old(self).buffer@, self.buffer@);
                }
                return ;
            }
        }
        self.buffer.push(Segment { end_point: segment_end, data: segment_end_delta_delta });
        proof {
            lemma_wf_push(
                self.start as int,
                old(self).buffer@,
                Segment { end_point: segment_end, data: segment_end_delta_delta },
            );
        }
    }

    /// Closes the signal by a zero slope change at the target end.
    pub fn extend_to_end(&mut self)
        requires
            old(self).wf(),
            seq_end(old(self).start as int, old(self).buffer@) <= old(self).end,
        ensures
            final(self).start == old(self).start,
            final(self).end == old(self).end,
            final(self).wf(),
            final(self).buffer@ == if old(self).buffer@.len() > 0 && seq_end(
                old(self).start as int, old(self).buffer@) == old(self).end {
                old(self).buffer@
            } else {
                old(self).buffer@.push(Segment { end_point: old(self).end, data: 0i64 })
            },
            seq_end(final(self).start as int, final(self).buffer@) == old(self).end,
    {
        let end: Point = self.end;
        self.add_segment(end, 0);
        proof {
            if old(self).buffer@.len() > 0 && seq_end(old(self).start as int, old(self).buffer@)
                == old(self).end {
                assert(self.buffer@ =~= old(self).buffer@);
            }
        }
    }

    /// Hands the accumulated differences over as a differential buffer.
    pub fn build(self) -> (r: DifferentialRatingBuffer)
        ensures
            r.start == self.start,
            r.buffer@ == self.buffer@,
    {
        DifferentialRatingBuffer { start: self.start, buffer: self.buffer }
    }
}

impl DifferentialRatingBuffer {
    /// Segment ends strictly increase, beginning after `start`.
    pub open spec fn wf(self) -> bool {
        wf_seq(self.start as int, self.buffer@)
    }

    /// The exclusive end of the signal.
    pub open spec fn spec_end(self) -> int {
        seq_end(self.start as int, self.buffer@)
    }

    /// Integrates the slope changes into a rating signal.
    pub fn into_rating_iter(self) -> (r: RatingIterator)
        requires
            self.wf(),
            integrable(self.start as int, self.buffer@, 0, 0),
            self.spec_end() - self.start <= i64::MAX,
        ensures
            r.start == self.start,
            r.segs@ == integrate_seq(self.start as int, self.buffer@, 0, 0),
            r.wf(),
    {
        let ghost gstart: int = self.start as int;
        let ghost s: Seq<Segment<RatingDeltaDelta>> = self.buffer@;
        let n: usize = self.buffer.len();
        let mut out: Vec<RatingSegment> = Vec::new();
        let mut rating: i64 = 0;
        let mut delta: i64 = 0;
        let mut last_end: Point = self.start;
        let mut i: usize = 0;
        proof {
            assert(s.skip(0) =~= s);
            assert(out@ + integrate_seq(gstart, s, 0, 0) =~= integrate_seq(gstart, s, 0, 0));
        }
        while i < n
            invariant
                n == s.len(),
                s == self.buffer@,
                gstart == self.start as int,
                0 <= i <= n,
                wf_seq(gstart, s),
                seq_end(gstart, s) - gstart <= i64::MAX,
                out@.len() == i,
                last_end == seg_begin(gstart, s, i as int),
                integrable(last_end as int, s.skip(i as int), rating as int, delta as int),
                integrate_seq(gstart, s, 0, 0) == out@ + integrate_seq(
                    last_end as int, s.skip(i as int), rating as int, delta as int),
            decreases n - i,
        {
            let ghost tail: Seq<Segment<RatingDeltaDelta>> = s.skip(i as int);
            let seg = self.buffer[i];
            proof {
                assert(tail[0] == s[i as int]);
                assert(tail.skip(1) =~= s.skip(i as int + 1));
                assert(seg_begin(gstart, s, i as int) < s[i as int].end_point);
                lemma_seg_bounds(gstart, s, i as int);
            }
            let emitted = Segment {
                end_point: seg.end_point,
                data: RatingInfo { rating, delta },
            };
            out.push(emitted);
            let new_rating: i64 = add_mul(rating, delta, seg.end_point - last_end);
            let new_delta: i64 = delta + seg.data;
            proof {
                assert(integrate_seq(last_end as int, tail, rating as int, delta as int)
                    == seq![emitted] + integrate_seq(
                    seg.end_point as int, tail.skip(1), new_rating as int, new_delta as int));
                assert(out@ + integrate_seq(
                    seg.end_point as int, s.skip(i as int + 1), new_rating as int,
                    new_delta as int) =~= out@.drop_last() + integrate_seq(
                    last_end as int, tail, rating as int, delta as int));
            }
            rating = new_rating;
            delta = new_delta;
            last_end = seg.end_point;
            i = i + 1;
        }
        proof {
            assert(s.skip(n as int) =~= Seq::<Segment<RatingDeltaDelta>>::empty());
            assert(integrate_seq(gstart, s, 0, 0) =~= out@);
            lemma_integrate_ends(gstart, s, 0, 0);
            lemma_wf_same_ends(gstart, s, integrate_seq(gstart, s, 0, 0));
        }
        SegmentIterator { start: self.start, segs: out }
    }
}

} // verus!
