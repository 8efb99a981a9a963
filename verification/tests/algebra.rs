use ilass::buffers::{DualBuffer, RatingBuffer};
use ilass::segments::{DualInfo, OffsetInfo, PointSpan, RatingInfo, Segment};

fn rseg(end: i64, rating: i64, delta: i64) -> Segment<RatingInfo> {
    Segment { end_point: end, data: RatingInfo { rating, delta } }
}

fn dseg(end: i64, rating: i64, delta: i64, offset: i64, drag: bool) -> Segment<DualInfo> {
    Segment {
        end_point: end,
        data: DualInfo {
            rating_info: RatingInfo { rating, delta },
            offset_info: OffsetInfo { offset, drag },
        },
    }
}

#[test]
fn maximum_earliest_point_wins() {
    // Rises to 10 at t=10, stays flat at 10, then falls: the earliest
    // point attaining the maximum is t=10.
    let buf = RatingBuffer {
        start: 0,
        buffer: vec![rseg(11, 0, 1), rseg(20, 10, 0), rseg(30, 10, -1)],
    };
    let (max, point) = buf.maximum();
    assert_eq!(max, 10);
    assert_eq!(point, 10);
}

#[test]
fn maximum_of_constant_signal_is_at_start() {
    let buf = RatingBuffer { start: -5, buffer: vec![rseg(5, 7, 0)] };
    let (max, point) = buf.maximum();
    assert_eq!(max, 7);
    assert_eq!(point, -5);
}

#[test]
fn clamp_scenario_ends_exactly_at_clamp() {
    // A signal spanning [0, 10000) clamped at 5000 ends at exactly 5000
    // and is unchanged before it.
    let buf = RatingBuffer { start: 0, buffer: vec![rseg(4000, 5, 1), rseg(10000, 9, -1)] };
    let clamped = buf.into_iter().clamp_end(5000).save();
    assert_eq!(clamped.buffer.len(), 2);
    assert_eq!(clamped.buffer[0], rseg(4000, 5, 1));
    assert_eq!(clamped.buffer[1].end_point, 5000);
    assert_eq!(clamped.buffer[1].data, RatingInfo { rating: 9, delta: -1 });
    assert_eq!(clamped.end(), Some(5000));
}

#[test]
fn clamp_end_is_idempotent() {
    let mk = || RatingBuffer { start: 0, buffer: vec![rseg(4000, 5, 1), rseg(10000, 9, -1)] };
    let once = mk().into_iter().clamp_end(5000).save();
    let twice = mk().into_iter().clamp_end(5000).save().into_iter().clamp_end(5000).save();
    assert_eq!(once.buffer, twice.buffer);
}

#[test]
fn clamp_end_commutes() {
    let mk = || RatingBuffer { start: 0, buffer: vec![rseg(4000, 5, 1), rseg(10000, 9, -1)] };
    let ab = mk().into_iter().clamp_end(6000).save().into_iter().clamp_end(4500).save();
    let ba = mk().into_iter().clamp_end(4500).save().into_iter().clamp_end(6000).save();
    assert_eq!(ab.buffer, ba.buffer);
}

#[test]
fn extend_to_is_idempotent() {
    let mk = || RatingBuffer { start: 0, buffer: vec![rseg(100, 3, 0)] };
    let once = mk().into_iter().extend_to(500).save();
    let twice = mk().into_iter().extend_to(500).save().into_iter().extend_to(500).save();
    assert_eq!(once.buffer, twice.buffer);
    assert_eq!(once.end(), Some(500));
    assert_eq!(once.buffer[1], rseg(500, 0, 0));
}

#[test]
fn shift_composes_additively() {
    let mk = || RatingBuffer { start: 0, buffer: vec![rseg(100, 3, 1), rseg(200, 103, -1)] };
    let one = mk().into_iter().shift(70).shift(30).save();
    let two = mk().into_iter().shift(100).save();
    assert_eq!(one.start, two.start);
    assert_eq!(one.buffer, two.buffer);
}

#[test]
fn shift_moves_start_and_ends() {
    let buf = RatingBuffer { start: 10, buffer: vec![rseg(100, 3, 1)] };
    let shifted = buf.into_iter().shift(-10).save();
    assert_eq!(shifted.start, 0);
    assert_eq!(shifted.buffer, vec![rseg(90, 3, 1)]);
}

#[test]
fn save_round_trip_preserves_buffer() {
    let buf = RatingBuffer { start: 0, buffer: vec![rseg(100, 3, 1), rseg(200, 103, -1)] };
    let again = buf.iter().save();
    let once_more = again.into_iter().save();
    assert_eq!(once_more.start, 0);
    assert_eq!(once_more.buffer, vec![rseg(100, 3, 1), rseg(200, 103, -1)]);
}

#[test]
fn add_rating_shifts_starting_ratings_only() {
    let buf = RatingBuffer { start: 0, buffer: vec![rseg(10, 5, 2)] };
    let out = buf.into_iter().add_rating(7).save();
    assert_eq!(out.buffer, vec![rseg(10, 12, 2)]);
}

#[test]
fn append_adds_one_segment() {
    let buf = RatingBuffer { start: 0, buffer: vec![rseg(10, 5, 0)] };
    let out = buf.into_iter().append(20, RatingInfo { rating: 1, delta: 0 }).save();
    assert_eq!(out.buffer, vec![rseg(10, 5, 0), rseg(20, 1, 0)]);
}

#[test]
fn annotate_and_discard_are_inverses() {
    let buf = RatingBuffer { start: 5, buffer: vec![rseg(10, 1, 0), rseg(20, 2, 0)] };
    let full = buf.iter().annotate_with_segment_start_points();
    let segs = full.into_iter();
    assert_eq!(segs[0].span, PointSpan { start: 5, end: 10 });
    assert_eq!(segs[1].span, PointSpan { start: 10, end: 20 });
    let back = RatingBuffer { start: 5, buffer: vec![rseg(10, 1, 0), rseg(20, 2, 0)] }
        .iter()
        .annotate_with_segment_start_points()
        .discard_start_times()
        .save();
    assert_eq!(back.buffer, vec![rseg(10, 1, 0), rseg(20, 2, 0)]);
}

#[test]
fn adder_sums_ratings_and_keeps_offsets() {
    // Dual signal: constant rating 1 with dragging offsets over [0, 10);
    // rating signal: slope 1 from 0 over [0, 4), then constant 4.
    let dual = DualBuffer { start: 0, buffer: vec![dseg(10, 1, 0, 100, true)] };
    let ratings = RatingBuffer { start: 0, buffer: vec![rseg(4, 0, 1), rseg(10, 4, 0)] };
    let sum = dual.into_iter().add_ratings_from(ratings.into_iter());
    let segs = sum.into_iter();
    assert_eq!(segs.len(), 2);
    assert_eq!(segs[0].span, PointSpan { start: 0, end: 4 });
    assert_eq!(segs[0].data.rating_info, RatingInfo { rating: 1, delta: 1 });
    assert_eq!(segs[0].data.offset_info, OffsetInfo { offset: 100, drag: true });
    assert_eq!(segs[1].span, PointSpan { start: 4, end: 10 });
    assert_eq!(segs[1].data.rating_info, RatingInfo { rating: 5, delta: 0 });
    assert_eq!(segs[1].data.offset_info, OffsetInfo { offset: 104, drag: true });
}

#[test]
fn left_to_right_maximum_carries_argmax_offset() {
    // Rises from 0 to 8 over [0, 9), then falls back: the running maximum
    // follows the rise and then stays at 8, remembering offset at t=8.
    let dual = DualBuffer {
        start: 0,
        buffer: vec![dseg(9, 0, 1, 0, true), dseg(18, 8, -1, 9, true)],
    };
    let out = dual.into_iter().annotate_with_segment_start_points().left_to_right_maximum();
    let segs = out.into_iter();
    assert_eq!(segs.len(), 2);
    assert_eq!(segs[0].span, PointSpan { start: 0, end: 9 });
    assert_eq!(segs[0].data.rating_info, RatingInfo { rating: 0, delta: 1 });
    assert_eq!(segs[1].span, PointSpan { start: 9, end: 18 });
    assert_eq!(segs[1].data.rating_info, RatingInfo { rating: 8, delta: 0 });
    assert_eq!(segs[1].data.offset_info, OffsetInfo { offset: 8, drag: false });
}

#[test]
fn left_to_right_maximum_splits_at_crossing() {
    // Starts below an earlier maximum of 5 and rises above it: the output
    // stays constant until the first point past the crossing.
    let dual = DualBuffer {
        start: 0,
        buffer: vec![dseg(4, 5, 0, 0, true), dseg(12, 0, 1, 4, true)],
    };
    let out = dual.into_iter().annotate_with_segment_start_points().left_to_right_maximum();
    let segs = out.into_iter();
    assert_eq!(segs.len(), 3);
    assert_eq!(segs[0].span, PointSpan { start: 0, end: 4 });
    assert_eq!(segs[0].data.rating_info, RatingInfo { rating: 5, delta: 0 });
    // Values on [4, 12) are 0,1,2,...; they exceed 5 from t = 10 on.
    assert_eq!(segs[1].span, PointSpan { start: 4, end: 10 });
    assert_eq!(segs[1].data.rating_info, RatingInfo { rating: 5, delta: 0 });
    assert_eq!(segs[2].span, PointSpan { start: 10, end: 12 });
    assert_eq!(segs[2].data.rating_info, RatingInfo { rating: 6, delta: 1 });
}

#[test]
fn running_maximum_is_deterministic() {
    let mk = || DualBuffer {
        start: 0,
        buffer: vec![dseg(9, 0, 1, 0, true), dseg(18, 8, -1, 9, true)],
    };
    let a = mk().into_iter().annotate_with_segment_start_points().left_to_right_maximum().into_iter();
    let b = mk().into_iter().annotate_with_segment_start_points().left_to_right_maximum().into_iter();
    assert_eq!(a, b);
}

#[test]
fn combined_maximum_prefers_first_on_full_dominance() {
    let a = DualBuffer { start: 0, buffer: vec![dseg(10, 5, 0, 1, false)] };
    let b = DualBuffer { start: 0, buffer: vec![dseg(10, 5, 0, 2, false)] };
    let out = ilass::combine::combined_maximum_of_dual_iterators(a.into_iter(), b.into_iter());
    let segs = out.into_iter();
    assert_eq!(segs.len(), 1);
    assert_eq!(segs[0].data.offset_info, OffsetInfo { offset: 1, drag: false });
}

#[test]
fn combined_maximum_switches_at_crossing() {
    // First: constant 5; second: rises from 0 with slope 1.  They cross
    // at t = 5; the second side is strictly better from t = 6 on.
    let a = DualBuffer { start: 0, buffer: vec![dseg(12, 5, 0, 1, false)] };
    let b = DualBuffer { start: 0, buffer: vec![dseg(12, 0, 1, 2, false)] };
    let out = ilass::combine::combined_maximum_of_dual_iterators(a.into_iter(), b.into_iter());
    let segs = out.into_iter();
    assert_eq!(segs.len(), 2);
    assert_eq!(segs[0].span, PointSpan { start: 0, end: 6 });
    assert_eq!(segs[0].data.rating_info, RatingInfo { rating: 5, delta: 0 });
    assert_eq!(segs[0].data.offset_info, OffsetInfo { offset: 1, drag: false });
    assert_eq!(segs[1].span, PointSpan { start: 6, end: 12 });
    assert_eq!(segs[1].data.rating_info, RatingInfo { rating: 6, delta: 1 });
    assert_eq!(segs[1].data.offset_info, OffsetInfo { offset: 2, drag: false });
}

#[test]
fn annotate_with_offset_info_drags_generated_offsets() {
    let buf = RatingBuffer { start: 0, buffer: vec![rseg(5, 1, 0), rseg(10, 2, 0)] };
    let dual = buf
        .into_iter()
        .annotate_with_segment_start_points()
        .annotate_with_offset_info(|p: i64| p + 100);
    let segs = dual.into_iter();
    assert_eq!(segs.len(), 2);
    assert_eq!(segs[0].data.offset_info, OffsetInfo { offset: 100, drag: true });
    assert_eq!(segs[1].data.offset_info, OffsetInfo { offset: 105, drag: true });
    assert_eq!(segs[0].data.rating_info, RatingInfo { rating: 1, delta: 0 });
}

#[test]
fn crossing_division_rounds_toward_negative_infinity() {
    assert_eq!(ilass::rating_type::div_by_delta_to_i64(6, 3), 2);
    assert_eq!(ilass::rating_type::div_by_delta_to_i64(-7, 2), -4);
    assert_eq!(ilass::rating_type::div_by_delta_to_i64(7, -2), -4);
    assert_eq!(ilass::rating_type::div_by_delta_to_i64(-7, -2), 3);
}
