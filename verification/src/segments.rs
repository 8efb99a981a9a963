use vstd::prelude::*;
use crate::rating_type::{Rating, RatingDelta, add_mul};
use crate::time_types::TimeDelta;

verus! {

/// A point on the timeline, in milliseconds.
pub type Point = TimeDelta;

/// A difference of two points.
pub type PointDiff = TimeDelta;

/// A candidate time offset for a subtitle line.
pub type Offset = Point;

/// A half-open span `[start, end)` with `start < end`.
#[derive(Clone, Copy, Debug, Hash, PartialEq, Eq, Structural)]
pub struct PointSpan {
    pub start: Point,
    pub end: Point,
}

impl PointSpan {
    pub open spec fn wf(self) -> bool {
        self.start < self.end
    }

    pub fn new(start: Point, end: Point) -> (s: PointSpan)
        requires
            start < end,
        ensures
            s.start == start,
            s.end == end,
    {
        PointSpan { start, end }
    }

    pub fn len(self) -> (l: PointDiff)
        requires
            self.wf(),
            self.end - self.start <= i64::MAX,
        ensures
            l == self.end - self.start,
    {
        self.end - self.start
    }

    /// The midpoint of the span, rounded down; it always lies inside the span.
    pub fn half(self) -> (p: Point)
        requires
            self.wf(),
        ensures
            self.start <= p < self.end,
            2 * p <= self.start + self.end < 2 * (p + 1),
    {
        let wide: i128 = crate::rating_type::div_floor_i128(
            (self.start as i128) + (self.end as i128), 2i128);
        proof {
            assert(self.start <= wide < self.end) by (nonlinear_arith)
                requires
                    self.start < self.end,
                    2 * wide <= self.start + self.end < 2 * (wide + 1);
        }
        wide as i64
    }
}

/// A candidate offset attached to a segment.  If `drag` is set the offset
/// grows by one per unit of time across the segment; otherwise it is
/// constant.
#[derive(Clone, Copy, Debug, PartialEq, Eq, Structural)]
pub struct OffsetInfo {
    pub offset: Point,
    pub drag: bool,
}

impl OffsetInfo {
    /// The offset this info yields `len` units after the segment start.
    pub open spec fn spec_at(self, len: int) -> int {
        if self.drag {
            self.offset + len
        } else {
            self.offset as int
        }
    }

    pub fn constant(offset: Offset) -> (r: OffsetInfo)
        ensures
            r.offset == offset,
            r.drag == false,
    {
        OffsetInfo { offset, drag: false }
    }

    pub fn start_offset(&self) -> (r: Offset)
        ensures
            r == self.spec_at(0),
    {
        self.offset
    }

    pub fn end_offset(&self, span_length: PointDiff) -> (r: Offset)
        requires
            span_length >= 1,
            i64::MIN <= self.spec_at(span_length - 1) <= i64::MAX,
        ensures
            r == self.spec_at(span_length - 1),
    {
        if self.drag {
            let wide: i128 = self.offset as i128 + (span_length as i128 - 1);
            wide as i64
        } else {
            self.offset
        }
    }

    pub fn exclusive_end_offset(&self, span_length: PointDiff) -> (r: Offset)
        requires
            span_length >= 0,
            i64::MIN <= self.spec_at(span_length as int) <= i64::MAX,
        ensures
            r == self.spec_at(span_length as int),
    {
        if self.drag {
            let wide: i128 = self.offset as i128 + span_length as i128;
            wide as i64
        } else {
            self.offset
        }
    }

    pub fn advanced_offset(self, time_delta: PointDiff) -> (r: Offset)
        requires
            i64::MIN <= self.spec_at(time_delta as int) <= i64::MAX,
        ensures
            r == self.spec_at(time_delta as int),
    {
        if self.drag {
            let wide: i128 = self.offset as i128 + time_delta as i128;
            wide as i64
        } else {
            self.offset
        }
    }

    /// The same info, moved `time_delta` units to the right.
    pub fn advanced(self, time_delta: TimeDelta) -> (r: OffsetInfo)
        requires
            i64::MIN <= self.spec_at(time_delta as int) <= i64::MAX,
        ensures
            r.offset == self.spec_at(time_delta as int),
            r.drag == self.drag,
            forall|len: int| r.spec_at(len) == self.spec_at(time_delta + len),
    {
        OffsetInfo { offset: self.advanced_offset(time_delta), drag: self.drag }
    }

    pub fn advance(&mut self, time_delta: TimeDelta)
        requires
            i64::MIN <= old(self).spec_at(time_delta as int) <= i64::MAX,
        ensures
            final(self).offset == old(self).spec_at(time_delta as int),
            final(self).drag == old(self).drag,
    {
        if self.drag {
            let wide: i128 = self.offset as i128 + time_delta as i128;
            self.offset = wide as i64;
        }
    }
}

/// The rating at a segment's start together with its per-unit slope.
#[derive(Clone, Copy, Debug, PartialEq, Eq, Structural)]
pub struct RatingInfo {
    pub rating: Rating,
    pub delta: RatingDelta,
}

impl RatingInfo {
    /// The rating this info yields `len` units after the segment start.
    pub open spec fn spec_at(self, len: int) -> int {
        self.rating + self.delta * len
    }

    pub fn constant(rating: Rating) -> (r: RatingInfo)
        ensures
            r.rating == rating,
            r.delta == 0,
    {
        RatingInfo { rating, delta: 0 }
    }

    /// The same info, moved `len` units to the right.
    pub fn advanced(self, len: TimeDelta) -> (r: RatingInfo)
        requires
            i64::MIN <= self.spec_at(len as int) <= i64::MAX,
        ensures
            r.rating == self.spec_at(len as int),
            r.delta == self.delta,
    {
        RatingInfo { rating: add_mul(self.rating, self.delta, len), delta: self.delta }
    }

    pub fn get_at(self, len: TimeDelta) -> (r: Rating)
        requires
            i64::MIN <= self.spec_at(len as int) <= i64::MAX,
        ensures
            r == self.spec_at(len as int),
    {
        add_mul(self.rating, self.delta, len)
    }

    pub fn advance(&mut self, len: TimeDelta)
        requires
            i64::MIN <= old(self).spec_at(len as int) <= i64::MAX,
        ensures
            final(self).rating == old(self).spec_at(len as int),
            final(self).delta == old(self).delta,
    {
        self.rating = add_mul(self.rating, self.delta, len);
    }

    pub fn start_rating(self) -> (r: Rating)
        ensures
            r == self.spec_at(0),
    {
        self.rating
    }

    /// The rating at the last point of a segment of length `len`.
    pub fn end_rating(self, len: TimeDelta) -> (r: Rating)
        requires
            len >= 1,
            i64::MIN <= self.spec_at(len - 1) <= i64::MAX,
        ensures
            r == self.spec_at(len - 1),
    {
        add_mul(self.rating, self.delta, len - 1)
    }

    /// The rating just past a segment of length `len` (its exclusive end).
    pub fn exclusive_end_rating(self, len: TimeDelta) -> (r: Rating)
        requires
            i64::MIN <= self.spec_at(len as int) <= i64::MAX,
        ensures
            r == self.spec_at(len as int),
    {
        add_mul(self.rating, self.delta, len)
    }

    /// Pointwise sum of two rating lines over a common span.
    pub fn plus(self, rhs: RatingInfo) -> (r: RatingInfo)
        requires
            i64::MIN <= self.rating + rhs.rating <= i64::MAX,
            i64::MIN <= self.delta + rhs.delta <= i64::MAX,
        ensures
            r.rating == self.rating + rhs.rating,
            r.delta == self.delta + rhs.delta,
    {
        RatingInfo { rating: self.rating + rhs.rating, delta: self.delta + rhs.delta }
    }
}

/// Rating and offset information sharing one segment span.
#[derive(Clone, Copy, Debug, PartialEq, Eq, Structural)]
pub struct DualInfo {
    pub offset_info: OffsetInfo,
    pub rating_info: RatingInfo,
}

impl DualInfo {
    /// The same info, moved `len` units to the right.
    pub fn advanced(self, len: TimeDelta) -> (r: DualInfo)
        requires
            i64::MIN <= self.rating_info.spec_at(len as int) <= i64::MAX,
            i64::MIN <= self.offset_info.spec_at(len as int) <= i64::MAX,
        ensures
            r.rating_info.rating == self.rating_info.spec_at(len as int),
            r.rating_info.delta == self.rating_info.delta,
            r.offset_info.offset == self.offset_info.spec_at(len as int),
            r.offset_info.drag == self.offset_info.drag,
    {
        DualInfo {
            rating_info: self.rating_info.advanced(len),
            offset_info: self.offset_info.advanced(len),
        }
    }
}

/// A segment carrying only its (exclusive) end point; its start is implied
/// by the previous segment's end, or by the signal start.
#[derive(Clone, Copy, Debug, PartialEq, Eq, Structural)]
pub struct Segment<D> {
    pub end_point: Point,
    pub data: D,
}

/// A segment carrying its span explicitly.
#[derive(Clone, Copy, Debug, PartialEq, Eq, Structural)]
pub struct FullSegment<D> {
    pub span: PointSpan,
    pub data: D,
}

impl<D> Segment<D> {
    pub fn with_start_point(self, start_point: Point) -> (r: FullSegment<D>)
        requires
            start_point < self.end_point,
        ensures
            r.span.start == start_point,
            r.span.end == self.end_point,
            r.data == self.data,
    {
        FullSegment { span: PointSpan { start: start_point, end: self.end_point }, data: self.data }
    }
}

impl<D> FullSegment<D> {
    pub fn discard_start_time(self) -> (r: Segment<D>)
        ensures
            r.end_point == self.span.end,
            r.data == self.data,
    {
        Segment { end_point: self.span.end, data: self.data }
    }

    pub fn start_point(self) -> (r: Point)
        ensures
            r == self.span.start,
    {
        self.span.start
    }

    pub fn end_point(self) -> (r: Point)
        ensures
            r == self.span.end,
    {
        self.span.end
    }
}

impl Segment<OffsetInfo> {
    pub fn start_offset(&self) -> (r: Offset)
        ensures
            r == self.data.spec_at(0),
    {
        self.data.start_offset()
    }

    pub fn end_offset(&self, len: PointDiff) -> (r: Offset)
        requires
            len >= 1,
            i64::MIN <= self.data.spec_at(len - 1) <= i64::MAX,
        ensures
            r == self.data.spec_at(len - 1),
    {
        self.data.end_offset(len)
    }
}

impl Segment<RatingInfo> {
    pub fn advance(&mut self, delta: TimeDelta)
        requires
            i64::MIN <= old(self).data.spec_at(delta as int) <= i64::MAX,
        ensures
            final(self).end_point == old(self).end_point,
            final(self).data.rating == old(self).data.spec_at(delta as int),
            final(self).data.delta == old(self).data.delta,
    {
        self.data.advance(delta);
    }

    pub fn start_rating(&self) -> (r: Rating)
        ensures
            r == self.data.spec_at(0),
    {
        self.data.start_rating()
    }

    pub fn end_rating(&self, len: TimeDelta) -> (r: Rating)
        requires
            len >= 1,
            i64::MIN <= self.data.spec_at(len - 1) <= i64::MAX,
        ensures
            r == self.data.spec_at(len - 1),
    {
        self.data.end_rating(len)
    }
}

impl Segment<DualInfo> {
    pub fn advance(&mut self, delta: TimeDelta)
        requires
            i64::MIN <= old(self).data.rating_info.spec_at(delta as int) <= i64::MAX,
            i64::MIN <= old(self).data.offset_info.spec_at(delta as int) <= i64::MAX,
        ensures
            final(self).end_point == old(self).end_point,
            final(self).data.rating_info.rating == old(self).data.rating_info.spec_at(delta as int),
            final(self).data.rating_info.delta == old(self).data.rating_info.delta,
            final(self).data.offset_info.offset == old(self).data.offset_info.spec_at(delta as int),
            final(self).data.offset_info.drag == old(self).data.offset_info.drag,
    {
        self.data.rating_info.advance(delta);
        self.data.offset_info.advance(delta);
    }

    pub fn as_rating_segment(&self) -> (r: Segment<RatingInfo>)
        ensures
            r.end_point == self.end_point,
            r.data == self.data.rating_info,
    {
        Segment { end_point: self.end_point, data: self.data.rating_info }
    }

    pub fn as_offset_segment(&self) -> (r: Segment<OffsetInfo>)
        ensures
            r.end_point == self.end_point,
            r.data == self.data.offset_info,
    {
        Segment { end_point: self.end_point, data: self.data.offset_info }
    }

    pub fn start_rating(&self) -> (r: Rating)
        ensures
            r == self.data.rating_info.spec_at(0),
    {
        self.data.rating_info.rating
    }

    pub fn start_offset(&self) -> (r: Offset)
        ensures
            r == self.data.offset_info.spec_at(0),
    {
        self.data.offset_info.offset
    }
}

impl FullSegment<OffsetInfo> {
    pub fn exclusive_end_offset(self) -> (r: Offset)
        requires
            self.span.wf(),
            self.span.end - self.span.start <= i64::MAX,
            i64::MIN <= self.data.spec_at(self.span.end - self.span.start) <= i64::MAX,
        ensures
            r == self.data.spec_at(self.span.end - self.span.start),
    {
        self.data.exclusive_end_offset(self.span.len())
    }

    pub fn start_offset(self) -> (r: Offset)
        ensures
            r == self.data.spec_at(0),
    {
        self.data.start_offset()
    }

    pub fn end_offset(self) -> (r: Offset)
        requires
            self.span.wf(),
            self.span.end - self.span.start <= i64::MAX,
            i64::MIN <= self.data.spec_at(self.span.end - self.span.start - 1) <= i64::MAX,
        ensures
            r == self.data.spec_at(self.span.end - self.span.start - 1),
    {
        self.data.end_offset(self.span.len())
    }
}

impl FullSegment<RatingInfo> {
    pub fn start_rating(self) -> (r: Rating)
        ensures
            r == self.data.spec_at(0),
    {
        self.data.rating
    }

    pub fn end_rating(self) -> (r: Rating)
        requires
            self.span.wf(),
            self.span.end - self.span.start <= i64::MAX,
            i64::MIN <= self.data.spec_at(self.span.end - self.span.start - 1) <= i64::MAX,
        ensures
            r == self.data.spec_at(self.span.end - self.span.start - 1),
    {
        self.data.end_rating(self.span.len())
    }

    pub fn exclusive_end_rating(&self) -> (r: Rating)
        requires
            self.span.wf(),
            self.span.end - self.span.start <= i64::MAX,
            i64::MIN <= self.data.spec_at(self.span.end - self.span.start) <= i64::MAX,
        ensures
            r == self.data.spec_at(self.span.end - self.span.start),
    {
        self.data.exclusive_end_rating(self.span.len())
    }
}

impl FullSegment<DualInfo> {
    pub fn start_rating(&self) -> (r: Rating)
        ensures
            r == self.data.rating_info.spec_at(0),
    {
        self.data.rating_info.rating
    }

    pub fn start_offset(&self) -> (r: Offset)
        ensures
            r == self.data.offset_info.spec_at(0),
    {
        self.data.offset_info.offset
    }

    pub fn end_rating(&self) -> (r: Rating)
        requires
            self.span.wf(),
            self.span.end - self.span.start <= i64::MAX,
            i64::MIN <= self.data.rating_info.spec_at(self.span.end - self.span.start - 1)
                <= i64::MAX,
        ensures
            r == self.data.rating_info.spec_at(self.span.end - self.span.start - 1),
    {
        self.data.rating_info.end_rating(self.span.len())
    }

    pub fn exclusive_end_offset(&self) -> (r: Offset)
        requires
            self.span.wf(),
            self.span.end - self.span.start <= i64::MAX,
            i64::MIN <= self.data.offset_info.spec_at(self.span.end - self.span.start) <= i64::MAX,
        ensures
            r == self.data.offset_info.spec_at(self.span.end - self.span.start),
    {
        self.data.offset_info.exclusive_end_offset(self.span.len())
    }

    pub fn exclusive_end_rating(&self) -> (r: Rating)
        requires
            self.span.wf(),
            self.span.end - self.span.start <= i64::MAX,
            i64::MIN <= self.data.rating_info.spec_at(self.span.end - self.span.start) <= i64::MAX,
        ensures
            r == self.data.rating_info.spec_at(self.span.end - self.span.start),
    {
        self.data.rating_info.exclusive_end_rating(self.span.len())
    }
}

pub type OffsetSegment = Segment<OffsetInfo>;

pub type RatingSegment = Segment<RatingInfo>;

pub type DualSegment = Segment<DualInfo>;

pub type OffsetFullSegment = FullSegment<OffsetInfo>;

pub type RatingFullSegment = FullSegment<RatingInfo>;

pub type DualFullSegment = FullSegment<DualInfo>;

// ------------------------------------------------------------------
// The mathematical model: where a segment begins, well-formedness, and
// the piecewise-linear value of a signal at a point.
// ------------------------------------------------------------------

/// Where segment `i` of an end-implied run begins.
pub open spec fn seg_begin<D>(start: int, s: Seq<Segment<D>>, i: int) -> int {
    if i <= 0 {
        start
    } else {
        s[i - 1].end_point as int
    }
}

/// Segment ends strictly increase and the first segment begins at `start`.
pub open spec fn wf_seq<D>(start: int, s: Seq<Segment<D>>) -> bool {
    forall|i: int| 0 <= i < s.len() ==> #[trigger] seg_begin(start, s, i) < s[i].end_point
}

/// The exclusive end of a run of segments (`start` if the run is empty).
pub open spec fn seq_end<D>(start: int, s: Seq<Segment<D>>) -> int {
    if s.len() == 0 {
        start
    } else {
        s[s.len() - 1].end_point as int
    }
}

/// The value of an end-implied run at point `t`, where `f` evaluates a
/// segment's data at a given distance past the segment start.  Points at or
/// past the last segment's end follow that segment's linear extension; this
/// makes `value_at(end)` the exclusive end value of the run.
pub open spec fn value_at<D>(start: int, s: Seq<Segment<D>>, t: int, f: spec_fn(D, int) -> int) -> int
    decreases s.len(),
{
    if s.len() == 0 {
        0
    } else if t < s[0].end_point || s.len() == 1 {
        f(s[0].data, t - start)
    } else {
        value_at(s[0].end_point as int, s.skip(1), t, f)
    }
}

/// How rating data is evaluated inside a segment.
pub open spec fn rating_eval() -> spec_fn(RatingInfo, int) -> int {
    |d: RatingInfo, len: int| d.spec_at(len)
}

/// How offset data is evaluated inside a segment.
pub open spec fn offset_eval() -> spec_fn(OffsetInfo, int) -> int {
    |d: OffsetInfo, len: int| d.spec_at(len)
}

/// How the rating half of dual data is evaluated inside a segment.
pub open spec fn dual_rating_eval() -> spec_fn(DualInfo, int) -> int {
    |d: DualInfo, len: int| d.rating_info.spec_at(len)
}

/// How the offset half of dual data is evaluated inside a segment.
pub open spec fn dual_offset_eval() -> spec_fn(DualInfo, int) -> int {
    |d: DualInfo, len: int| d.offset_info.spec_at(len)
}

/// The slope of rating data, constant across a segment.
pub open spec fn rating_delta_eval() -> spec_fn(RatingInfo, int) -> int {
    |d: RatingInfo, len: int| d.delta as int
}

/// The slope of the rating half of dual data, constant across a segment.
pub open spec fn dual_delta_eval() -> spec_fn(DualInfo, int) -> int {
    |d: DualInfo, len: int| d.rating_info.delta as int
}

/// The rating of an end-implied rating run at point `t`.
pub open spec fn rating_at(start: int, s: Seq<RatingSegment>, t: int) -> int {
    value_at(start, s, t, rating_eval())
}

/// The slope of an end-implied rating run at point `t`.
pub open spec fn delta_at(start: int, s: Seq<RatingSegment>, t: int) -> int {
    value_at(start, s, t, rating_delta_eval())
}

/// The rating of an end-implied dual run at point `t`.
pub open spec fn seg_dual_rating_at(start: int, s: Seq<DualSegment>, t: int) -> int {
    value_at(start, s, t, dual_rating_eval())
}

/// The offset of an end-implied dual run at point `t`.
pub open spec fn seg_dual_offset_at(start: int, s: Seq<DualSegment>, t: int) -> int {
    value_at(start, s, t, dual_offset_eval())
}

/// The rating slope of an end-implied dual run at point `t`.
pub open spec fn seg_dual_delta_at(start: int, s: Seq<DualSegment>, t: int) -> int {
    value_at(start, s, t, dual_delta_eval())
}

/// The offset of an end-implied offset run at point `t`.
pub open spec fn offset_at(start: int, s: Seq<OffsetSegment>, t: int) -> int {
    value_at(start, s, t, offset_eval())
}

/// The contiguous-span analogue of `wf_seq` for full segments.
pub open spec fn wf_full<D>(start: int, s: Seq<FullSegment<D>>) -> bool {
    forall|i: int| 0 <= i < s.len() ==> {
        &&& (#[trigger] s[i]).span.start < s[i].span.end
        &&& s[i].span.start == if i == 0 { start } else { s[i - 1].span.end as int }
    }
}

/// The exclusive end of a run of full segments.
pub open spec fn full_end<D>(start: int, s: Seq<FullSegment<D>>) -> int {
    if s.len() == 0 {
        start
    } else {
        s[s.len() - 1].span.end as int
    }
}

/// The value of a full-segment run at point `t`, extending the last segment
/// past its end as `value_at` does.
pub open spec fn full_value_at<D>(s: Seq<FullSegment<D>>, t: int, f: spec_fn(D, int) -> int) -> int
    decreases s.len(),
{
    if s.len() == 0 {
        0
    } else if t < s[0].span.end || s.len() == 1 {
        f(s[0].data, t - s[0].span.start)
    } else {
        full_value_at(s.skip(1), t, f)
    }
}

/// The rating of a full-segment dual run at point `t`.
pub open spec fn dual_rating_at(s: Seq<DualFullSegment>, t: int) -> int {
    full_value_at(s, t, dual_rating_eval())
}

/// The offset of a full-segment dual run at point `t`.
pub open spec fn dual_offset_at(s: Seq<DualFullSegment>, t: int) -> int {
    full_value_at(s, t, dual_offset_eval())
}

/// The rating of a full-segment rating run at point `t`.
pub open spec fn full_rating_at(s: Seq<RatingFullSegment>, t: int) -> int {
    full_value_at(s, t, rating_eval())
}

/// Every evaluation of any segment's line anywhere inside (or just past)
/// its own span stays within `i64`; all arithmetic of the algebra stays
/// inside these bounds.
pub open spec fn ratings_representable(start: int, s: Seq<RatingSegment>) -> bool {
    forall|i: int, len: int|
        0 <= i < s.len() && 0 <= len <= s[i].end_point - seg_begin(start, s, i) ==> i64::MIN <= (
        #[trigger] s[i].data.spec_at(len)) <= i64::MAX
}

/// A weaker bound than `ratings_representable`: every segment's line stays
/// within `i64` up to the last point of its span (its exclusive end value
/// may fall outside).
pub open spec fn ratings_bounded(start: int, s: Seq<RatingSegment>) -> bool {
    forall|i: int, len: int|
        0 <= i < s.len() && 0 <= len <= s[i].end_point - seg_begin(start, s, i) - 1 ==> i64::MIN
            <= (#[trigger] s[i].data.spec_at(len)) <= i64::MAX
}

/// Every evaluation of any offset segment's line inside (or just past) its
/// own span stays within `i64`.
pub open spec fn offsets_representable(start: int, s: Seq<OffsetSegment>) -> bool {
    forall|i: int, len: int|
        0 <= i < s.len() && 0 <= len <= s[i].end_point - seg_begin(start, s, i) ==> i64::MIN <= (
        #[trigger] s[i].data.spec_at(len)) <= i64::MAX
}

/// The representability bound for end-implied dual runs: both the rating
/// line and the offset line of every segment stay within `i64`.
pub open spec fn dual_segs_representable(start: int, s: Seq<DualSegment>) -> bool {
    forall|i: int, len: int|
        #![trigger s[i].data.rating_info.spec_at(len)]
        #![trigger s[i].data.offset_info.spec_at(len)]
        0 <= i < s.len() && 0 <= len <= s[i].end_point - seg_begin(start, s, i) ==> {
            &&& i64::MIN <= s[i].data.rating_info.spec_at(len) <= i64::MAX
            &&& i64::MIN <= s[i].data.offset_info.spec_at(len) <= i64::MAX
        }
}

/// The representability bound for dual full runs: both the rating line and
/// the offset line of every segment stay within `i64` over the segment.
pub open spec fn duals_representable(s: Seq<DualFullSegment>) -> bool {
    forall|i: int, len: int|
        #![trigger s[i].data.rating_info.spec_at(len)]
        #![trigger s[i].data.offset_info.spec_at(len)]
        0 <= i < s.len() && 0 <= len <= s[i].span.end - s[i].span.start ==> {
            &&& i64::MIN <= s[i].data.rating_info.spec_at(len) <= i64::MAX
            &&& i64::MIN <= s[i].data.offset_info.spec_at(len) <= i64::MAX
        }
}

// ------------------------------------------------------------------
// Lemmas about the model.
// ------------------------------------------------------------------

/// Dropping the first segment of a well-formed run leaves a well-formed run
/// starting at that segment's end.
pub proof fn lemma_wf_skip<D>(start: int, s: Seq<Segment<D>>)
    requires
        wf_seq(start, s),
        s.len() > 0,
    ensures
        wf_seq(s[0].end_point as int, s.skip(1)),
{
    let s2 = s.skip(1);
    assert forall|j: int| 0 <= j < s2.len() implies #[trigger] seg_begin(
        s[0].end_point as int, s2, j) < s2[j].end_point by {
        assert(seg_begin(start, s, j + 1) < s[j + 1].end_point);
    }
}

/// In a well-formed run, earlier segments end no later than any later
/// segment begins.
pub proof fn lemma_end_le_begin<D>(start: int, s: Seq<Segment<D>>, i: int, j: int)
    requires
        wf_seq(start, s),
        0 <= i < j < s.len(),
    ensures
        s[i].end_point <= seg_begin(start, s, j),
    decreases j - i,
{
    if j > i + 1 {
        lemma_end_le_begin(start, s, i, j - 1);
        assert(seg_begin(start, s, j - 1) < s[j - 1].end_point);
    }
}

/// Inside segment `i` (or past the end of the last segment), the run's
/// value is that segment's line evaluated from the segment's begin.
pub proof fn lemma_value_at_index<D>(
    start: int,
    s: Seq<Segment<D>>,
    f: spec_fn(D, int) -> int,
    i: int,
    t: int,
)
    requires
        wf_seq(start, s),
        0 <= i < s.len(),
        seg_begin(start, s, i) <= t,
        i < s.len() - 1 ==> t < s[i].end_point,
    ensures
        value_at(start, s, t, f) == f(s[i].data, t - seg_begin(start, s, i)),
    decreases i,
{
    if i == 0 {
    } else {
        assert(seg_begin(start, s, i) < s[i].end_point);
        lemma_end_le_begin(start, s, 0, i);
        lemma_wf_skip(start, s);
        lemma_value_at_index(s[0].end_point as int, s.skip(1), f, i - 1, t);
        assert(seg_begin(s[0].end_point as int, s.skip(1), i - 1) == seg_begin(start, s, i));
    }
}

/// Appending a later segment keeps a run well-formed.
pub proof fn lemma_wf_push<D>(start: int, s: Seq<Segment<D>>, x: Segment<D>)
    requires
        wf_seq(start, s),
        seq_end(start, s) < x.end_point,
    ensures
        wf_seq(start, s.push(x)),
        seq_end(start, s.push(x)) == x.end_point,
{
    let s2 = s.push(x);
    assert forall|j: int| 0 <= j < s2.len() implies #[trigger] seg_begin(start, s2, j)
        < s2[j].end_point by {
        if j < s.len() {
            assert(seg_begin(start, s, j) < s[j].end_point);
            assert(seg_begin(start, s2, j) == seg_begin(start, s, j));
        } else {
            assert(seg_begin(start, s2, j) == seq_end(start, s));
        }
    }
}

/// Appending a later segment does not change values before the old end, and
/// the appended segment's line gives the values from the old end on.
pub proof fn lemma_value_at_push<D>(
    start: int,
    s: Seq<Segment<D>>,
    f: spec_fn(D, int) -> int,
    x: Segment<D>,
    t: int,
)
    requires
        wf_seq(start, s),
        seq_end(start, s) < x.end_point,
    ensures
        s.len() > 0 && t < seq_end(start, s) ==> value_at(start, s.push(x), t, f) == value_at(
            start, s, t, f),
        t >= seq_end(start, s) ==> value_at(start, s.push(x), t, f) == f(
            x.data, t - seq_end(start, s)),
    decreases s.len(),
{
    if s.len() == 0 {
        assert(s.push(x)[0] == x);
    } else {
        assert(s.push(x).skip(1) =~= s.skip(1).push(x));
        lemma_wf_skip(start, s);
        lemma_value_at_push(s[0].end_point as int, s.skip(1), f, x, t);
        if s.len() == 1 {
            assert(seq_end(start, s) == s[0].end_point);
        } else {
            lemma_end_le_begin(start, s, 0, s.len() - 1);
        }
    }
}

/// Dropping the first segment of a well-formed full run leaves a
/// well-formed full run.
pub proof fn lemma_wf_full_skip<D>(start: int, s: Seq<FullSegment<D>>)
    requires
        wf_full(start, s),
        s.len() > 0,
    ensures
        wf_full(s[0].span.end as int, s.skip(1)),
{
    let s2 = s.skip(1);
    assert forall|j: int| 0 <= j < s2.len() implies {
        &&& (#[trigger] s2[j]).span.start < s2[j].span.end
        &&& s2[j].span.start == if j == 0 { s[0].span.end as int } else { s2[j - 1].span.end as int }
    } by {
        assert(s[j + 1].span.start < s[j + 1].span.end);
    }
}

/// In a well-formed full run the spans are ordered.
pub proof fn lemma_full_spans_ordered<D>(start: int, s: Seq<FullSegment<D>>, i: int, j: int)
    requires
        wf_full(start, s),
        0 <= i < j < s.len(),
    ensures
        s[i].span.end <= s[j].span.start,
    decreases j - i,
{
    if j == i + 1 {
        assert(s[j].span.start == s[i].span.end);
    } else {
        lemma_full_spans_ordered(start, s, i, j - 1);
        assert(s[j - 1].span.start < s[j - 1].span.end);
        assert(s[j].span.start == s[j - 1].span.end);
    }
}

/// A well-formed full run begins at `start`.
pub proof fn lemma_full_first_start<D>(start: int, s: Seq<FullSegment<D>>)
    requires
        wf_full(start, s),
        s.len() > 0,
    ensures
        s[0].span.start == start,
{
    assert(s[0].span.start < s[0].span.end);
}

/// Inside segment `i` of a full run (or past the end of the last segment),
/// the run's value is that segment's line.
pub proof fn lemma_full_value_at_index<D>(
    start: int,
    s: Seq<FullSegment<D>>,
    f: spec_fn(D, int) -> int,
    i: int,
    t: int,
)
    requires
        wf_full(start, s),
        0 <= i < s.len(),
        s[i].span.start <= t,
        i < s.len() - 1 ==> t < s[i].span.end,
    ensures
        full_value_at(s, t, f) == f(s[i].data, t - s[i].span.start),
    decreases i,
{
    if i == 0 {
    } else {
        assert(s[i].span.start < s[i].span.end);
        lemma_full_spans_ordered(start, s, 0, i);
        lemma_wf_full_skip(start, s);
        lemma_full_value_at_index(s[0].span.end as int, s.skip(1), f, i - 1, t);
    }
}

/// Appending a contiguous later segment keeps a full run well-formed.
pub proof fn lemma_wf_full_push<D>(start: int, s: Seq<FullSegment<D>>, x: FullSegment<D>)
    requires
        wf_full(start, s),
        x.span.start == full_end(start, s),
        x.span.start < x.span.end,
    ensures
        wf_full(start, s.push(x)),
        full_end(start, s.push(x)) == x.span.end,
{
    let s2 = s.push(x);
    assert forall|j: int| 0 <= j < s2.len() implies {
        &&& (#[trigger] s2[j]).span.start < s2[j].span.end
        &&& s2[j].span.start == if j == 0 { start } else { s2[j - 1].span.end as int }
    } by {
        if j < s.len() {
            assert(s[j].span.start < s[j].span.end);
        }
    }
}

/// Appending a contiguous later segment does not change the values of a
/// full run before the old end, and the appended segment's line gives the
/// values from the old end on.
pub proof fn lemma_full_value_at_push<D>(
    start: int,
    s: Seq<FullSegment<D>>,
    f: spec_fn(D, int) -> int,
    x: FullSegment<D>,
    t: int,
)
    requires
        wf_full(start, s),
        x.span.start == full_end(start, s),
        x.span.start < x.span.end,
    ensures
        s.len() > 0 && t < full_end(start, s) ==> full_value_at(s.push(x), t, f)
            == full_value_at(s, t, f),
        t >= full_end(start, s) ==> full_value_at(s.push(x), t, f) == f(
            x.data, t - full_end(start, s)),
    decreases s.len(),
{
    if s.len() == 0 {
        assert(s.push(x)[0] == x);
    } else {
        assert(s.push(x).skip(1) =~= s.skip(1).push(x));
        lemma_wf_full_skip(start, s);
        lemma_full_value_at_push(s[0].span.end as int, s.skip(1), f, x, t);
        if s.len() > 1 {
            lemma_full_spans_ordered(start, s, 0, s.len() - 1);
        }
    }
}

/// Every segment of a well-formed run lies between the run's start and its
/// exclusive end.
pub proof fn lemma_seg_bounds<D>(start: int, s: Seq<Segment<D>>, i: int)
    requires
        wf_seq(start, s),
        0 <= i < s.len(),
    ensures
        start <= seg_begin(start, s, i),
        s[i].end_point <= seq_end(start, s),
    decreases i,
{
    if i > 0 {
        lemma_seg_bounds(start, s, i - 1);
        assert(seg_begin(start, s, i - 1) < s[i - 1].end_point);
    }
    if i < s.len() - 1 {
        lemma_end_le_begin(start, s, i, s.len() - 1);
        assert(seg_begin(start, s, s.len() - 1) < s[s.len() - 1].end_point);
    }
}

/// Well-formedness only depends on the end points: two runs with the same
/// end points are well-formed together.
pub proof fn lemma_wf_same_ends<D1, D2>(start: int, s1: Seq<Segment<D1>>, s2: Seq<Segment<D2>>)
    requires
        wf_seq(start, s1),
        s1.len() == s2.len(),
        forall|i: int| 0 <= i < s1.len() ==> (#[trigger] s2[i]).end_point == s1[i].end_point,
    ensures
        wf_seq(start, s2),
{
    assert forall|i: int| 0 <= i < s2.len() implies #[trigger] seg_begin(start, s2, i)
        < s2[i].end_point by {
        assert(seg_begin(start, s1, i) < s1[i].end_point);
    }
}

/// A linear function with positive slope is strictly increasing.
pub proof fn lemma_linear_strict(r: int, d: int, a: int, b: int)
    by (nonlinear_arith)
    requires
        d >= 1,
        a < b,
    ensures
        r + d * a < r + d * b,
{
}

/// Every segment of a well-formed full run lies between the run's start
/// and its exclusive end.
#[verifier::rlimit(100)]
pub proof fn lemma_full_seg_bounds<D>(start: int, s: Seq<FullSegment<D>>, i: int)
    requires
        wf_full(start, s),
        0 <= i < s.len(),
    ensures
        start <= s[i].span.start,
        s[i].span.end <= full_end(start, s),
    decreases i,
{
    if i > 0 {
        lemma_full_seg_bounds(start, s, i - 1);
        assert(s[i - 1].span.start < s[i - 1].span.end);
        assert(s[i].span.start == s[i - 1].span.end);
    } else {
        assert(s[0].span.start < s[0].span.end);
    }
    if i < s.len() - 1 {
        lemma_full_spans_ordered(start, s, i, s.len() - 1);
        assert(s[s.len() - 1].span.start < s[s.len() - 1].span.end);
    }
}

/// A new rating segment whose line stays within `i64` over its span keeps
/// a run representable.
pub proof fn lemma_ratings_representable_push(start: int, s: Seq<RatingSegment>, x: RatingSegment)
    requires
        ratings_representable(start, s),
        forall|l: int|
            0 <= l <= x.end_point - seq_end(start, s) ==> i64::MIN <= (#[trigger] x.data.spec_at(
                l)) <= i64::MAX,
    ensures
        ratings_representable(start, s.push(x)),
{
    let s2 = s.push(x);
    assert forall|i: int, len: int|
        0 <= i < s2.len() && 0 <= len <= s2[i].end_point - seg_begin(start, s2, i) implies i64::MIN
        <= (#[trigger] s2[i].data.spec_at(len)) <= i64::MAX by {
        if i < s.len() {
            assert(s2[i] == s[i]);
            assert(seg_begin(start, s2, i) == seg_begin(start, s, i));
            assert(i64::MIN <= s[i].data.spec_at(len) <= i64::MAX);
        } else {
            assert(s2[i] == x);
            assert(seg_begin(start, s2, i) == seq_end(start, s));
            assert(i64::MIN <= x.data.spec_at(len) <= i64::MAX);
        }
    }
}

/// Re-anchoring a line at an interior point does not change its values.
pub proof fn lemma_line_rebase(r0: int, d: int, b: int, m: int, t: int)
    by (nonlinear_arith)
    ensures
        (r0 + d * (m - b)) + d * (t - m) == r0 + d * (t - b),
{
}

/// Multiplication distributes over a sum of slopes.
pub proof fn lemma_mul_distrib_add(d1: int, d2: int, x: int)
    by (nonlinear_arith)
    ensures
        (d1 + d2) * x == d1 * x + d2 * x,
{
}

/// A linear function over a span is bounded by its values at the span's
/// ends.
pub proof fn lemma_linear_between(r: int, d: int, len: int, l: int)
    by (nonlinear_arith)
    requires
        0 <= len <= l,
    ensures
        d >= 0 ==> r + d * len <= r + d * l,
        d >= 0 ==> r <= r + d * len,
        d <= 0 ==> r + d * l <= r + d * len,
        d <= 0 ==> r + d * len <= r,
{
}

} // verus!
