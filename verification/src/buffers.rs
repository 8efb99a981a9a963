use vstd::prelude::*;
use crate::rating_type::Rating;
use crate::segments::{
    Segment, RatingSegment, OffsetSegment, DualSegment, RatingInfo, OffsetInfo, DualInfo, Point,
    Offset, seg_begin, wf_seq, seq_end, rating_at, offset_at, ratings_representable,
    offsets_representable, lemma_value_at_index, lemma_seg_bounds, lemma_linear_between,
    lemma_linear_strict, rating_eval, offset_eval,
};
use crate::streams::{SegmentIterator, RatingIterator, OffsetIterator, DualIterator};

verus! {

/// A materialized rating signal: a start point and an ordered backing
/// vector of rating segments.
#[derive(Debug)]
pub struct RatingBuffer {
    pub start: Point,
    pub buffer: Vec<RatingSegment>,
}

/// A materialized offset signal.
#[derive(Debug)]
pub struct OffsetBuffer {
    pub start: Point,
    pub buffer: Vec<OffsetSegment>,
}

/// A materialized dual signal.
#[derive(Debug)]
pub struct DualBuffer {
    pub start: Point,
    pub buffer: Vec<DualSegment>,
}

/// The two halves of a dual signal saved separately: simplified ratings and
/// simplified offsets.
#[derive(Debug)]
pub struct SeparateDualBuffer {
    pub rating_buffer: RatingBuffer,
    pub offset_buffer: OffsetBuffer,
}

/// Copies a backing vector of segments.
fn copy_segments<D: Copy>(segs: &Vec<Segment<D>>) -> (r: Vec<Segment<D>>)
    ensures
        r@ == segs@,
{
    let n: usize = segs.len();
    let mut out: Vec<Segment<D>> = Vec::new();
    let mut i: usize = 0;
    while i < n
        invariant
            n == segs@.len(),
            0 <= i <= n,
            out@.len() == i,
            forall|j: int| 0 <= j < i ==> #[trigger] out@[j] == segs@[j],
        decreases n - i,
    {
        out.push(segs[i]);
        i = i + 1;
    }
    proof {
        assert(out@ =~= segs@);
    }
    out
}

impl RatingBuffer {
    /// Segment ends strictly increase, beginning after `start`.
    pub open spec fn wf(self) -> bool {
        wf_seq(self.start as int, self.buffer@)
    }

    /// The exclusive end of the signal (its start when it is empty).
    pub open spec fn spec_end(self) -> int {
        seq_end(self.start as int, self.buffer@)
    }

    /// One-shot consuming iteration over the signal.
    pub fn into_iter(self) -> (r: RatingIterator)
        ensures
            r.start == self.start,
            r.segs@ == self.buffer@,
    {
        SegmentIterator { start: self.start, segs: self.buffer }
    }

    /// Iteration over a copy of the signal.
    pub fn iter(&self) -> (r: RatingIterator)
        ensures
            r.start == self.start,
            r.segs@ == self.buffer@,
    {
        SegmentIterator { start: self.start, segs: copy_segments(&self.buffer) }
    }

    /// The end point of the first segment, if any.
    pub fn first_end_point(&self) -> (r: Option<Point>)
        ensures
            self.buffer@.len() == 0 ==> r is None,
            self.buffer@.len() > 0 ==> r == Some(self.buffer@[0].end_point),
    {
        if self.buffer.len() == 0 {
            None
        } else {
            Some(self.buffer[0].end_point)
        }
    }

    /// The exclusive end of the signal, if it has any segment.
    pub fn end(&self) -> (r: Option<Point>)
        ensures
            self.buffer@.len() == 0 ==> r is None,
            self.buffer@.len() > 0 ==> r == Some((self.spec_end()) as i64),
    {
        if self.buffer.len() == 0 {
            None
        } else {
            Some(self.buffer[self.buffer.len() - 1].end_point)
        }
    }

    /// The start point of the signal.
    pub fn start(&self) -> (r: Point)
        ensures
            r == self.start,
    {
        self.start
    }

    /// The maximum rating over the signal together with the earliest point
    /// that attains it.
    pub fn maximum(&self) -> (r: (Rating, Point))
        requires
            self.wf(),
            self.buffer@.len() > 0,
            ratings_representable(self.start as int, self.buffer@),
            self.spec_end() - self.start <= i64::MAX,
        ensures
            self.start <= r.1 < self.spec_end(),
            rating_at(self.start as int, self.buffer@, r.1 as int) == r.0,
            forall|t: int|
                self.start <= t < self.spec_end() ==> rating_at(self.start as int, self.buffer@, t)
                    <= r.0,
            forall|t: int|
                self.start <= t < r.1 ==> rating_at(self.start as int, self.buffer@, t) < r.0,
    {
        let ghost gstart: int = self.start as int;
        let ghost s: Seq<RatingSegment> = self.buffer@;
        let n: usize = self.buffer.len();
        let mut cur_max: Rating = self.buffer[0].data.rating;
        let mut cur_point: Point = self.start;
        let mut seg_start: Point = self.start;
        let mut i: usize = 0;
        proof {
            lemma_value_at_index(gstart, s, rating_eval(), 0, gstart);
            assert(rating_at(gstart, s, gstart) == self.buffer@[0].data.spec_at(0));
        }
        while i < n
            invariant
                n == s.len(),
                gstart == self.start as int,
                s == self.buffer@,
                0 <= i <= n,
                n > 0,
                wf_seq(gstart, s),
                ratings_representable(gstart, s),
                seq_end(gstart, s) - gstart <= i64::MAX,
                seg_start == seg_begin(gstart, s, i as int),
                self.start <= cur_point,
                i > 0 ==> cur_point < seg_begin(gstart, s, i as int),
                i == 0 ==> cur_point == self.start,
                rating_at(gstart, s, cur_point as int) == cur_max,
                forall|t: int|
                    gstart <= t < seg_begin(gstart, s, i as int) ==> rating_at(gstart, s, t)
                        <= cur_max,
                forall|t: int| gstart <= t < cur_point ==> rating_at(gstart, s, t) < cur_max,
            decreases n - i,
        {
            let ghost gi: int = i as int;
            let seg = self.buffer[i];
            let ghost b: int = seg_begin(gstart, s, gi);
            proof {
                assert(b < seg.end_point);
                lemma_seg_bounds(gstart, s, gi);
            }
            let len: i64 = seg.end_point - seg_start;
            let sr: Rating = seg.data.rating;
            proof {
                assert(seg.data.spec_at(len - 1) == s[gi].data.spec_at(len - 1));
                assert(i64::MIN <= s[gi].data.spec_at(len - 1) <= i64::MAX);
                assert(i64::MIN <= s[gi].data.spec_at(0) <= i64::MAX);
            }
            let er: Rating = seg.data.end_rating(len);
            proof {
                assert forall|t: int| b <= t < seg.end_point implies rating_at(gstart, s, t)
                    == seg.data.spec_at(t - b) by {
                    lemma_value_at_index(gstart, s, rating_eval(), gi, t);
                }
                assert forall|t: int| b <= t < seg.end_point implies rating_at(gstart, s, t)
                    <= if sr >= er { sr as int } else { er as int } by {
                    lemma_linear_between(seg.data.rating as int, seg.data.delta as int, t - b,
                        len - 1);
                }
            }
            if sr > cur_max {
                cur_max = sr;
                cur_point = seg_start;
            }
            if er > cur_max {
                proof {
                    // The segment rises to its end: its slope is positive.
                    assert(seg.data.spec_at(0) < seg.data.spec_at(len - 1));
                    assert(seg.data.delta >= 1) by {
                        lemma_linear_between(seg.data.rating as int, seg.data.delta as int, 0,
                            len - 1);
                    }
                    assert forall|t: int| b <= t < seg.end_point - 1 implies rating_at(
                        gstart, s, t) < er by {
                        lemma_linear_strict(seg.data.rating as int, seg.data.delta as int, t - b,
                            len - 1);
                    }
                }
                cur_max = er;
                cur_point = seg.end_point - 1;
            }
            seg_start = seg.end_point;
            i = i + 1;
        }
        (cur_max, cur_point)
    }
}

impl OffsetBuffer {
    /// Segment ends strictly increase, beginning after `start`.
    pub open spec fn wf(self) -> bool {
        wf_seq(self.start as int, self.buffer@)
    }

    /// The exclusive end of the signal (its start when it is empty).
    pub open spec fn spec_end(self) -> int {
        seq_end(self.start as int, self.buffer@)
    }

    /// One-shot consuming iteration over the signal.
    pub fn into_iter(self) -> (r: OffsetIterator)
        ensures
            r.start == self.start,
            r.segs@ == self.buffer@,
    {
        SegmentIterator { start: self.start, segs: self.buffer }
    }

    /// Iteration over a copy of the signal.
    pub fn iter(&self) -> (r: OffsetIterator)
        ensures
            r.start == self.start,
            r.segs@ == self.buffer@,
    {
        SegmentIterator { start: self.start, segs: copy_segments(&self.buffer) }
    }

    /// The number of backing segments.
    pub fn len(&self) -> (r: usize)
        ensures
            r == self.buffer@.len(),
    {
        self.buffer.len()
    }

    /// The exclusive end of the signal, if it has any segment.
    pub fn end_point(&self) -> (r: Option<Point>)
        ensures
            self.buffer@.len() == 0 ==> r is None,
            self.buffer@.len() > 0 ==> r == Some((self.spec_end()) as i64),
    {
        if self.buffer.len() == 0 {
            None
        } else {
            Some(self.buffer[self.buffer.len() - 1].end_point)
        }
    }

    /// The exclusive end of the signal, if it has any segment.
    pub fn end(&self) -> (r: Option<Point>)
        ensures
            self.buffer@.len() == 0 ==> r is None,
            self.buffer@.len() > 0 ==> r == Some((self.spec_end()) as i64),
    {
        self.end_point()
    }

    /// The start point of the signal.
    pub fn start(&self) -> (r: Point)
        ensures
            r == self.start,
    {
        self.start
    }

    /// The offset at the last point of the signal.
    pub fn end_offset(&self) -> (r: Offset)
        requires
            self.wf(),
            self.buffer@.len() > 0,
            offsets_representable(self.start as int, self.buffer@),
            self.spec_end() - self.start <= i64::MAX,
        ensures
            r == offset_at(self.start as int, self.buffer@, self.spec_end() - 1),
    {
        let ghost gstart: int = self.start as int;
        let ghost s: Seq<OffsetSegment> = self.buffer@;
        let n: usize = self.buffer.len();
        let seg_start: Point = if n == 1 {
            self.start
        } else {
            self.buffer[n - 2].end_point
        };
        let last = self.buffer[n - 1];
        proof {
            let gi: int = n - 1;
            assert(seg_start == seg_begin(gstart, s, gi));
            assert(seg_begin(gstart, s, gi) < s[gi].end_point);
            lemma_seg_bounds(gstart, s, gi);
            lemma_value_at_index(gstart, s, offset_eval(), gi, last.end_point - 1);
        }
        let len: i64 = last.end_point - seg_start;
        last.data.end_offset(len)
    }

    /// The offset the signal holds at point `t`.
    pub fn get_offset_at(&self, t: Point) -> (r: Offset)
        requires
            self.wf(),
            self.buffer@.len() > 0,
            self.start <= t < self.spec_end(),
            offsets_representable(self.start as int, self.buffer@),
            self.spec_end() - self.start <= i64::MAX,
        ensures
            r == offset_at(self.start as int, self.buffer@, t as int),
    {
        let ghost gstart: int = self.start as int;
        let ghost s: Seq<OffsetSegment> = self.buffer@;
        let n: usize = self.buffer.len();
        let mut segment_start: Point = self.start;
        let mut i: usize = 0;
        while i < n
            invariant
                n == s.len(),
                gstart == self.start as int,
                s == self.buffer@,
                0 <= i <= n,
                n > 0,
                wf_seq(gstart, s),
                offsets_representable(gstart, s),
                self.start <= t < seq_end(gstart, s),
                seq_end(gstart, s) - gstart <= i64::MAX,
                segment_start == seg_begin(gstart, s, i as int),
                t >= seg_begin(gstart, s, i as int),
            decreases n - i,
        {
            let ghost gi: int = i as int;
            let seg = self.buffer[i];
            proof {
                assert(seg_begin(gstart, s, gi) < s[gi].end_point);
                lemma_seg_bounds(gstart, s, gi);
            }
            if t < seg.end_point {
                proof {
                    lemma_value_at_index(gstart, s, offset_eval(), gi, t as int);
                }
                return seg.data.advanced_offset(t - segment_start);
            }
            segment_start = seg.end_point;
            i = i + 1;
        }
        proof {
            assert(t >= seq_end(gstart, s));
            assert(false);
        }
        vstd::pervasive::unreached()
    }
}

impl DualBuffer {
    /// Segment ends strictly increase, beginning after `start`.
    pub open spec fn wf(self) -> bool {
        wf_seq(self.start as int, self.buffer@)
    }

    /// The exclusive end of the signal (its start when it is empty).
    pub open spec fn spec_end(self) -> int {
        seq_end(self.start as int, self.buffer@)
    }

    /// One-shot consuming iteration over the signal.
    pub fn into_iter(self) -> (r: DualIterator)
        ensures
            r.start == self.start,
            r.segs@ == self.buffer@,
    {
        SegmentIterator { start: self.start, segs: self.buffer }
    }

    /// Iteration over a copy of the signal.
    pub fn iter(&self) -> (r: DualIterator)
        ensures
            r.start == self.start,
            r.segs@ == self.buffer@,
    {
        SegmentIterator { start: self.start, segs: copy_segments(&self.buffer) }
    }
}

impl SegmentIterator<RatingInfo> {
    /// Materializes the run into a buffer.
    pub fn save(self) -> (r: RatingBuffer)
        ensures
            r.start == self.start,
            r.buffer@ == self.segs@,
    {
        RatingBuffer { start: self.start, buffer: self.segs }
    }
}

impl SegmentIterator<OffsetInfo> {
    /// Materializes the run into a buffer.
    pub fn save(self) -> (r: OffsetBuffer)
        ensures
            r.start == self.start,
            r.buffer@ == self.segs@,
    {
        OffsetBuffer { start: self.start, buffer: self.segs }
    }
}

impl SegmentIterator<DualInfo> {
    /// Materializes the run into a buffer.
    pub fn save(self) -> (r: DualBuffer)
        ensures
            r.start == self.start,
            r.buffer@ == self.segs@,
    {
        DualBuffer { start: self.start, buffer: self.segs }
    }
}

} // verus!
