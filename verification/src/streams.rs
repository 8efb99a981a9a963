use vstd::prelude::*;
use crate::rating_type::{RatingDelta};
use crate::time_types::TimeDelta;
use crate::segments::{Segment, FullSegment, RatingSegment, OffsetSegment, DualSegment, RatingFullSegment, DualFullSegment, RatingInfo, OffsetInfo, DualInfo, PointSpan, Point, Offset, seg_begin, wf_seq, seq_end, wf_full, full_end, lemma_wf_push, lemma_wf_skip};

verus! {

/// An eagerly materialized run of end-implied segments, together with the
/// signal's start point.  Transforms consume the run and hand back a new
/// one.
pub struct SegmentIterator<D> {
    pub start: Point,
    pub segs: Vec<Segment<D>>,
}

/// An eagerly materialized run of segments carrying explicit spans.
pub struct FullSegmentIterator<D> {
    pub start: Point,
    pub segs: Vec<FullSegment<D>>,
}

pub type RatingIterator = SegmentIterator<RatingInfo>;

pub type OffsetIterator = SegmentIterator<OffsetInfo>;

pub type DualIterator = SegmentIterator<DualInfo>;

pub type RatingFullIterator = FullSegmentIterator<RatingInfo>;

pub type DualFullSegmentIterator = FullSegmentIterator<DualInfo>;

impl<D> SegmentIterator<D> {
    /// Segment ends strictly increase, beginning after `start`.
    pub open spec fn wf(self) -> bool {
        wf_seq(self.start as int, self.segs@)
    }

    /// The exclusive end of the run (its start when the run is empty).
    pub open spec fn spec_end(self) -> int {
        seq_end(self.start as int, self.segs@)
    }

    /// Hands out the backing segments.
    pub fn into_iter(self) -> (r: Vec<Segment<D>>)
        ensures
            r@ == self.segs@,
    {
        self.segs
    }
}

impl<D> FullSegmentIterator<D> {
    /// Spans are non-empty and contiguous, beginning at `start`.
    pub open spec fn wf(self) -> bool {
        wf_full(self.start as int, self.segs@)
    }

    /// The exclusive end of the run (its start when the run is empty).
    pub open spec fn spec_end(self) -> int {
        full_end(self.start as int, self.segs@)
    }

    /// Hands out the backing segments.
    pub fn into_iter(self) -> (r: Vec<FullSegment<D>>)
        ensures
            r@ == self.segs@,
    {
        self.segs
    }
}

/// The run of end-implied segments obtained by shifting every end point by
/// `t`.
pub open spec fn shift_seq<D>(s: Seq<Segment<D>>, t: int) -> Seq<Segment<D>> {
    Seq::new(s.len(), |i: int| Segment { end_point: (s[i].end_point + t) as i64, data: s[i].data })
}

impl<D: Copy> SegmentIterator<D> {
    /// Time-shifts the signal: the start and every end point move by `t`.
    pub fn shift(self, t: TimeDelta) -> (r: SegmentIterator<D>)
        requires
            i64::MIN <= self.start + t <= i64::MAX,
            forall|i: int| 0 <= i < self.segs@.len() ==> i64::MIN <= (
            #[trigger] self.segs@[i]).end_point + t <= i64::MAX,
        ensures
            r.start == self.start + t,
            r.segs@ == shift_seq(self.segs@, t as int),
            self.wf() ==> r.wf(),
    {
        let shifted: Vec<Segment<D>> = shift_ends(&self.segs, t);
        let r = SegmentIterator { start: self.start + t, segs: shifted };
        proof {
            if self.wf() {
                assert forall|i: int| 0 <= i < r.segs@.len() implies #[trigger] seg_begin(
                    r.start as int, r.segs@, i) < r.segs@[i].end_point by {
                    assert(seg_begin(self.start as int, self.segs@, i) < self.segs@[i].end_point);
                }
            }
        }
        r
    }

    /// Shifts end points only; the start stays in place.
    pub fn shift_simple(self, t: TimeDelta) -> (r: SegmentIterator<D>)
        requires
            forall|i: int| 0 <= i < self.segs@.len() ==> i64::MIN <= (
            #[trigger] self.segs@[i]).end_point + t <= i64::MAX,
        ensures
            r.start == self.start,
            r.segs@ == shift_seq(self.segs@, t as int),
    {
        let shifted: Vec<Segment<D>> = shift_ends(&self.segs, t);
        SegmentIterator { start: self.start, segs: shifted }
    }

    /// Appends one segment; the caller asserts the ordering.
    pub fn append(self, end_point: Point, data: D) -> (r: SegmentIterator<D>)
        requires
            self.spec_end() < end_point,
        ensures
            r.start == self.start,
            r.segs@ == self.segs@.push(Segment { end_point, data }),
            self.wf() ==> r.wf(),
    {
        proof {
            if self.wf() {
                lemma_wf_push(self.start as int, self.segs@, Segment { end_point, data });
            }
        }
        let mut segs: Vec<Segment<D>> = self.segs;
        segs.push(Segment { end_point, data });
        SegmentIterator { start: self.start, segs }
    }

    /// Recovers each segment's start point from the previous end.
    pub fn annotate_with_segment_start_points(self) -> (r: FullSegmentIterator<D>)
        requires
            self.wf(),
        ensures
            r.start == self.start,
            r.wf(),
            r.segs@.len() == self.segs@.len(),
            forall|i: int| 0 <= i < self.segs@.len() ==> {
                &&& (#[trigger] r.segs@[i]).span.start == seg_begin(
                    self.start as int, self.segs@, i)
                &&& r.segs@[i].span.end == self.segs@[i].end_point
                &&& r.segs@[i].data == self.segs@[i].data
            },
    {
        let n: usize = self.segs.len();
        let mut out: Vec<FullSegment<D>> = Vec::new();
        let mut last_end: Point = self.start;
        let mut i: usize = 0;
        while i < n
            invariant
                n == self.segs@.len(),
                0 <= i <= n,
                self.wf(),
                out@.len() == i,
                last_end == seg_begin(self.start as int, self.segs@, i as int),
                forall|j: int| 0 <= j < i ==> {
                    &&& (#[trigger] out@[j]).span.start == seg_begin(
                        self.start as int, self.segs@, j)
                    &&& out@[j].span.end == self.segs@[j].end_point
                    &&& out@[j].data == self.segs@[j].data
                },
            decreases n - i,
        {
            let seg = self.segs[i];
            proof {
                assert(seg_begin(self.start as int, self.segs@, i as int) < self.segs@[i as int].end_point);
            }
            out.push(FullSegment { span: PointSpan { start: last_end, end: seg.end_point }, data: seg.data });
            last_end = seg.end_point;
            i = i + 1;
        }
        let r = FullSegmentIterator { start: self.start, segs: out };
        proof {
            assert forall|j: int| 0 <= j < r.segs@.len() implies {
                &&& (#[trigger] r.segs@[j]).span.start < r.segs@[j].span.end
                &&& r.segs@[j].span.start == if j == 0 { r.start as int } else {
                    r.segs@[j - 1].span.end as int
                }
            } by {
                assert(seg_begin(self.start as int, self.segs@, j) < self.segs@[j].end_point);
            }
        }
        r
    }
}

impl<D: Copy> FullSegmentIterator<D> {
    /// Drops the explicit start points, leaving an end-implied run.
    pub fn discard_start_times(self) -> (r: SegmentIterator<D>)
        requires
            self.wf(),
        ensures
            r.start == self.start,
            r.wf(),
            r.segs@.len() == self.segs@.len(),
            forall|i: int| 0 <= i < self.segs@.len() ==> {
                &&& (#[trigger] r.segs@[i]).end_point == self.segs@[i].span.end
                &&& r.segs@[i].data == self.segs@[i].data
            },
    {
        let n: usize = self.segs.len();
        let mut out: Vec<Segment<D>> = Vec::new();
        let mut i: usize = 0;
        while i < n
            invariant
                n == self.segs@.len(),
                0 <= i <= n,
                self.wf(),
                out@.len() == i,
                forall|j: int| 0 <= j < i ==> {
                    &&& (#[trigger] out@[j]).end_point == self.segs@[j].span.end
                    &&& out@[j].data == self.segs@[j].data
                },
            decreases n - i,
        {
            let seg = self.segs[i];
            out.push(Segment { end_point: seg.span.end, data: seg.data });
            i = i + 1;
        }
        let r = SegmentIterator { start: self.start, segs: out };
        proof {
            assert forall|j: int| 0 <= j < r.segs@.len() implies #[trigger] seg_begin(
                r.start as int, r.segs@, j) < r.segs@[j].end_point by {
                assert((self.segs@[j]).span.start < self.segs@[j].span.end);
                if j > 0 {
                    assert((self.segs@[j]).span.start == self.segs@[j - 1].span.end);
                }
            }
        }
        r
    }
}

/// The run obtained by appending a zero tail reaching `end`, where needed.
pub open spec fn extend_seq(start: int, s: Seq<RatingSegment>, end: int) -> Seq<RatingSegment> {
    if seq_end(start, s) == end {
        s
    } else {
        s.push(Segment { end_point: end as i64, data: RatingInfo { rating: 0, delta: 0 } })
    }
}

/// The run obtained by truncating at `c`: segments ending before `c` are
/// kept, the first segment reaching `c` is cut there, the rest dropped.
pub open spec fn clamp_seq(s: Seq<RatingSegment>, c: int) -> Seq<RatingSegment>
    decreases s.len(),
{
    if s.len() == 0 {
        Seq::empty()
    } else if s[0].end_point < c {
        seq![s[0]] + clamp_seq(s.skip(1), c)
    } else {
        seq![Segment { end_point: c as i64, data: s[0].data }]
    }
}

/// The run with `dr` added to every segment's starting rating.
pub open spec fn add_rating_seq(s: Seq<RatingSegment>, dr: int) -> Seq<RatingSegment> {
    Seq::new(
        s.len(),
        |i: int| Segment {
            end_point: s[i].end_point,
            data: RatingInfo { rating: (s[i].data.rating + dr) as i64, delta: s[i].data.delta },
        },
    )
}

impl SegmentIterator<RatingInfo> {
    /// If the signal ends before `end_point`, appends a zero-rating
    /// zero-slope tail reaching `end_point`.
    pub fn extend_to(self, end_point: Point) -> (r: RatingIterator)
        requires
            self.wf(),
            self.spec_end() <= end_point,
            self.segs@.len() == 0 ==> self.start < end_point,
        ensures
            r.start == self.start,
            r.segs@ == extend_seq(self.start as int, self.segs@, end_point as int),
            r.wf(),
            r.spec_end() == end_point,
    {
        let n: usize = self.segs.len();
        let needs_tail: bool = if n == 0 {
            true
        } else {
            self.segs[n - 1].end_point < end_point
        };
        if needs_tail {
            let tail = Segment { end_point, data: RatingInfo { rating: 0, delta: 0 } };
            proof {
                lemma_wf_push(self.start as int, self.segs@, tail);
            }
            let mut segs: Vec<RatingSegment> = self.segs;
            segs.push(tail);
            SegmentIterator { start: self.start, segs }
        } else {
            self
        }
    }

    /// Truncates the signal at `clamp`.
    pub fn clamp_end(self, clamp: Point) -> (r: RatingIterator)
        requires
            self.wf(),
            self.start < clamp,
        ensures
            r.start == self.start,
            r.segs@ == clamp_seq(self.segs@, clamp as int),
            r.wf(),
    {
        let ghost gstart: int = self.start as int;
        let ghost s: Seq<RatingSegment> = self.segs@;
        let n: usize = self.segs.len();
        let mut out: Vec<RatingSegment> = Vec::new();
        let mut i: usize = 0;
        let mut done: bool = false;
        proof {
            assert(s.skip(0) =~= s);
            assert(out@ + clamp_seq(s, clamp as int) =~= clamp_seq(s, clamp as int));
        }
        while i < n && !done
            invariant
                n == s.len(),
                s == self.segs@,
                0 <= i <= n,
                wf_seq(gstart, s),
                clamp_seq(s, clamp as int) == out@ + if done {
                    Seq::<RatingSegment>::empty()
                } else {
                    clamp_seq(s.skip(i as int), clamp as int)
                },
            decreases n - i + if done { 0int } else { 1int },
        {
            let ghost tail: Seq<RatingSegment> = s.skip(i as int);
            let seg = self.segs[i];
            proof {
                assert(tail[0] == s[i as int]);
                assert(tail.skip(1) =~= s.skip(i as int + 1));
            }
            if seg.end_point < clamp {
                out.push(seg);
                proof {
                    assert(out@ + clamp_seq(s.skip(i as int + 1), clamp as int) =~= (
                    out@.drop_last() + (seq![tail[0]] + clamp_seq(tail.skip(1), clamp as int))));
                }
            } else {
                out.push(Segment { end_point: clamp, data: seg.data });
                done = true;
                proof {
                    assert(clamp_seq(tail, clamp as int) =~= seq![out@.last()]);
                    assert(out@ =~= out@.drop_last() + seq![out@.last()]);
                }
            }
            i = i + 1;
        }
        proof {
            if !done {
                assert(s.skip(n as int) =~= Seq::<RatingSegment>::empty());
                assert(clamp_seq(s, clamp as int) =~= out@);
            } else {
                assert(clamp_seq(s, clamp as int) =~= out@);
            }
            lemma_clamp_seq_wf(gstart, s, clamp as int);
        }
        SegmentIterator { start: self.start, segs: out }
    }

    /// Adds a constant to every segment's starting rating; slopes stay.
    pub fn add_rating(self, rating_delta: RatingDelta) -> (r: RatingIterator)
        requires
            forall|i: int|
                0 <= i < self.segs@.len() ==> i64::MIN <= (
                #[trigger] self.segs@[i]).data.rating + rating_delta <= i64::MAX,
        ensures
            r.start == self.start,
            r.segs@ == add_rating_seq(self.segs@, rating_delta as int),
            self.wf() ==> r.wf(),
    {
        let ghost s: Seq<RatingSegment> = self.segs@;
        let n: usize = self.segs.len();
        let mut out: Vec<RatingSegment> = Vec::new();
        let mut i: usize = 0;
        while i < n
            invariant
                n == s.len(),
                s == self.segs@,
                0 <= i <= n,
                out@.len() == i,
                forall|j: int|
                    0 <= j < s.len() ==> i64::MIN <= (#[trigger] s[j]).data.rating + rating_delta
                        <= i64::MAX,
                forall|j: int| 0 <= j < i ==> #[trigger] out@[j] == add_rating_seq(
                    s, rating_delta as int)[j],
            decreases n - i,
        {
            let seg = self.segs[i];
            out.push(
                Segment {
                    end_point: seg.end_point,
                    data: RatingInfo { rating: seg.data.rating + rating_delta, delta: seg.data.delta },
                },
            );
            i = i + 1;
        }
        proof {
            assert(out@ =~= add_rating_seq(s, rating_delta as int));
            if self.wf() {
                crate::segments::lemma_wf_same_ends(
                    self.start as int, s, add_rating_seq(s, rating_delta as int));
            }
        }
        SegmentIterator { start: self.start, segs: out }
    }
}

/// Truncation keeps the run well-formed when it starts before `c`.
pub proof fn lemma_clamp_seq_wf(start: int, s: Seq<RatingSegment>, c: int)
    requires
        wf_seq(start, s),
        i64::MIN <= start < c,
    ensures
        wf_seq(start, clamp_seq(s, c)),
    decreases s.len(),
{
    let r = clamp_seq(s, c);
    if s.len() == 0 {
    } else if s[0].end_point < c {
        lemma_wf_skip(start, s);
        lemma_clamp_seq_wf(s[0].end_point as int, s.skip(1), c);
        let r2 = clamp_seq(s.skip(1), c);
        assert(s[0].end_point < s[0].end_point + 1);
        assert(seg_begin(start, s, 0) < s[0].end_point);
        assert forall|i: int| 0 <= i < r.len() implies #[trigger] seg_begin(start, r, i)
            < r[i].end_point by {
            if i == 0 {
            } else {
                assert(r[i] == r2[i - 1]);
                assert(seg_begin(s[0].end_point as int, r2, i - 1) < r2[i - 1].end_point);
                if i == 1 {
                    assert(seg_begin(start, r, 1) == r[0].end_point);
                } else {
                    assert(seg_begin(start, r, i) == r2[i - 2].end_point);
                }
            }
        }
    } else {
        assert(seg_begin(start, s, 0) < s[0].end_point);
        assert(i64::MIN <= start < c <= s[0].end_point <= i64::MAX);
        assert(c as i64 == c);
        assert(r.len() == 1 && r[0].end_point == c);
    }
}

impl SegmentIterator<DualInfo> {
    /// Projects the rating half of a dual signal.
    pub fn only_ratings(self) -> (r: RatingIterator)
        ensures
            r.start == self.start,
            r.segs@.len() == self.segs@.len(),
            forall|i: int| 0 <= i < self.segs@.len() ==> {
                &&& (#[trigger] r.segs@[i]).end_point == self.segs@[i].end_point
                &&& r.segs@[i].data == self.segs@[i].data.rating_info
            },
            self.wf() ==> r.wf(),
    {
        let ghost s: Seq<DualSegment> = self.segs@;
        let n: usize = self.segs.len();
        let mut out: Vec<RatingSegment> = Vec::new();
        let mut i: usize = 0;
        while i < n
            invariant
                n == s.len(),
                s == self.segs@,
                0 <= i <= n,
                out@.len() == i,
                forall|j: int| 0 <= j < i ==> {
                    &&& (#[trigger] out@[j]).end_point == s[j].end_point
                    &&& out@[j].data == s[j].data.rating_info
                },
            decreases n - i,
        {
            let seg = self.segs[i];
            out.push(Segment { end_point: seg.end_point, data: seg.data.rating_info });
            i = i + 1;
        }
        let r = SegmentIterator { start: self.start, segs: out };
        proof {
            if self.wf() {
                crate::segments::lemma_wf_same_ends(self.start as int, s, r.segs@);
            }
        }
        r
    }

    /// Projects the offset half of a dual signal.
    pub fn only_offsets(self) -> (r: OffsetIterator)
        ensures
            r.start == self.start,
            r.segs@.len() == self.segs@.len(),
            forall|i: int| 0 <= i < self.segs@.len() ==> {
                &&& (#[trigger] r.segs@[i]).end_point == self.segs@[i].end_point
                &&& r.segs@[i].data == self.segs@[i].data.offset_info
            },
            self.wf() ==> r.wf(),
    {
        let ghost s: Seq<DualSegment> = self.segs@;
        let n: usize = self.segs.len();
        let mut out: Vec<OffsetSegment> = Vec::new();
        let mut i: usize = 0;
        while i < n
            invariant
                n == s.len(),
                s == self.segs@,
                0 <= i <= n,
                out@.len() == i,
                forall|j: int| 0 <= j < i ==> {
                    &&& (#[trigger] out@[j]).end_point == s[j].end_point
                    &&& out@[j].data == s[j].data.offset_info
                },
            decreases n - i,
        {
            let seg = self.segs[i];
            out.push(Segment { end_point: seg.end_point, data: seg.data.offset_info });
            i = i + 1;
        }
        let r = SegmentIterator { start: self.start, segs: out };
        proof {
            if self.wf() {
                crate::segments::lemma_wf_same_ends(self.start as int, s, r.segs@);
            }
        }
        r
    }
}

/// Shifts every end point of a run by `t`, keeping the data.
fn shift_ends<D: Copy>(segs: &Vec<Segment<D>>, t: TimeDelta) -> (r: Vec<Segment<D>>)
    requires
        forall|i: int| 0 <= i < segs@.len() ==> i64::MIN <= (#[trigger] segs@[i]).end_point + t
            <= i64::MAX,
    ensures
        r@ == shift_seq(segs@, t as int),
{
    let n: usize = segs.len();
    let mut out: Vec<Segment<D>> = Vec::new();
    let mut i: usize = 0;
    while i < n
        invariant
            n == segs@.len(),
            0 <= i <= n,
            out@.len() == i,
            forall|j: int| 0 <= j < segs@.len() ==> i64::MIN <= (#[trigger] segs@[j]).end_point + t
                <= i64::MAX,
            forall|j: int| 0 <= j < i ==> #[trigger] out@[j] == shift_seq(segs@, t as int)[j],
        decreases n - i,
    {
        let seg = segs[i];
        let wide: i128 = seg.end_point as i128 + t as i128;
        out.push(Segment { end_point: wide as i64, data: seg.data });
        i = i + 1;
    }
    proof {
        assert(out@ =~= shift_seq(segs@, t as int));
    }
    out
}


impl FullSegmentIterator<RatingInfo> {
    /// Attaches dragging offset information to each full rating segment,
    /// generated from the segment's start point.
    pub fn annotate_with_offset_info<F: Fn(Point) -> Offset>(self, offset_generate: F) -> (r:
        DualFullSegmentIterator)
        requires
            forall|p: Point| #[trigger] offset_generate.requires((p,)),
        ensures
            r.start == self.start,
            r.segs@.len() == self.segs@.len(),
            forall|i: int|
                0 <= i < self.segs@.len() ==> {
                    &&& (#[trigger] r.segs@[i]).span == self.segs@[i].span
                    &&& r.segs@[i].data.rating_info == self.segs@[i].data
                    &&& r.segs@[i].data.offset_info.drag == true
                    &&& offset_generate.ensures(
                        (self.segs@[i].span.start,),
                        r.segs@[i].data.offset_info.offset,
                    )
                },
            self.wf() ==> r.wf(),
    {
        let ghost s: Seq<RatingFullSegment> = self.segs@;
        let n: usize = self.segs.len();
        let mut out: Vec<DualFullSegment> = Vec::new();
        let mut i: usize = 0;
        while i < n
            invariant
                n == s.len(),
                s == self.segs@,
                0 <= i <= n,
                out@.len() == i,
                forall|p: Point| #[trigger] offset_generate.requires((p,)),
                forall|j: int|
                    0 <= j < i ==> {
                        &&& (#[trigger] out@[j]).span == s[j].span
                        &&& out@[j].data.rating_info == s[j].data
                        &&& out@[j].data.offset_info.drag == true
                        &&& offset_generate.ensures(
                            (s[j].span.start,),
                            out@[j].data.offset_info.offset,
                        )
                    },
            decreases n - i,
        {
            let seg = self.segs[i];
            let off: Offset = offset_generate(seg.span.start);
            out.push(
                FullSegment {
                    span: seg.span,
                    data: DualInfo {
                        rating_info: seg.data,
                        offset_info: OffsetInfo { offset: off, drag: true },
                    },
                },
            );
            i = i + 1;
        }
        let r = FullSegmentIterator { start: self.start, segs: out };
        proof {
            if self.wf() {
                assert forall|j: int| 0 <= j < r.segs@.len() implies {
                    &&& (#[trigger] r.segs@[j]).span.start < r.segs@[j].span.end
                    &&& r.segs@[j].span.start == if j == 0 {
                        r.start as int
                    } else {
                        r.segs@[j - 1].span.end as int
                    }
                } by {
                    assert(s[j].span.start < s[j].span.end);
                    if j > 0 {
                        assert(s[j].span.start == s[j - 1].span.end);
                    }
                }
            }
        }
        r
    }
}

} // verus!
