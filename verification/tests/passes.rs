use ilass::buffers::{DualBuffer, RatingBuffer};
use ilass::differential::DifferentialRatingBufferBuilder;
use ilass::segments::{DualInfo, OffsetInfo, RatingInfo, Segment};

fn rseg(end: i64, rating: i64, delta: i64) -> Segment<RatingInfo> {
    Segment { end_point: end, data: RatingInfo { rating, delta } }
}

fn dseg(end: i64, rating: i64, delta: i64, offset: i64, drag: bool) -> Segment<DualInfo> {
    Segment {
        end_point: end,
        data: DualInfo {
            rating_info: RatingInfo { rating, delta },
            offset_info: OffsetInfo { offset, drag },
        },
    }
}

#[test]
fn save_simplified_merges_abutting_same_slope() {
    // Two pieces of the same line through (0, 3) with slope 2, then a
    // break in value: the first two merge, the third stays.
    let buf = RatingBuffer {
        start: 0,
        buffer: vec![rseg(5, 3, 2), rseg(10, 13, 2), rseg(15, 0, 2)],
    };
    let out = buf.into_iter().save_simplified();
    assert_eq!(out.buffer, vec![rseg(10, 3, 2), rseg(15, 0, 2)]);
}

#[test]
fn save_simplified_keeps_distinct_slopes() {
    let buf = RatingBuffer { start: 0, buffer: vec![rseg(5, 3, 2), rseg(10, 13, 1)] };
    let out = buf.into_iter().save_simplified();
    assert_eq!(out.buffer, vec![rseg(5, 3, 2), rseg(10, 13, 1)]);
}

#[test]
fn aggressive_with_zero_epsilon_is_exact() {
    // Colinear pieces merge, the value break survives.
    let buf = RatingBuffer {
        start: 0,
        buffer: vec![rseg(5, 3, 2), rseg(10, 13, 2), rseg(15, 0, 0)],
    };
    let out = buf.into_iter().save_aggressively_simplified(0);
    assert_eq!(out.buffer, vec![rseg(10, 3, 2), rseg(15, 0, 0)]);
}

#[test]
fn aggressive_merges_within_epsilon() {
    // A small step of height 1 disappears under a tolerance of 2, and the
    // merged line stays within the tolerance at every covered endpoint.
    let buf = RatingBuffer { start: 0, buffer: vec![rseg(4, 10, 0), rseg(8, 11, 0)] };
    let out = buf.into_iter().save_aggressively_simplified(2);
    assert_eq!(out.buffer.len(), 1);
    assert_eq!(out.buffer[0].end_point, 8);
    let seg = out.buffer[0].data;
    // Covered endpoints: 0, 3 (value 10) and 4, 7 (value 11).
    for (t, v) in [(0i64, 10i64), (3, 10), (4, 11), (7, 11)] {
        let fitted = seg.rating + seg.delta * t;
        assert!((fitted - v).abs() <= 2, "fitted {} at {} vs {}", fitted, t, v);
    }
}

#[test]
fn aggressive_flushes_outside_epsilon() {
    let buf = RatingBuffer { start: 0, buffer: vec![rseg(4, 0, 0), rseg(8, 100, 0)] };
    let out = buf.into_iter().save_aggressively_simplified(2);
    assert_eq!(out.buffer, vec![rseg(4, 0, 0), rseg(8, 100, 0)]);
}

#[test]
fn dual_simplify_merges_both_channels() {
    let dual = DualBuffer {
        start: 0,
        buffer: vec![dseg(5, 0, 1, 10, true), dseg(10, 5, 1, 15, true), dseg(15, 0, 0, 0, false)],
    };
    let out = dual.into_iter().simplify();
    let segs = out.into_iter();
    assert_eq!(segs.len(), 2);
    assert_eq!(segs[0].span.start, 0);
    assert_eq!(segs[0].span.end, 10);
    assert_eq!(segs[0].data.rating_info, RatingInfo { rating: 0, delta: 1 });
    assert_eq!(segs[0].data.offset_info, OffsetInfo { offset: 10, drag: true });
    assert_eq!(segs[1].span.end, 15);
}

#[test]
fn save_separate_equals_sequential_collection() {
    let mk = || DualBuffer {
        start: 0,
        buffer: vec![dseg(5, 0, 1, 10, true), dseg(10, 5, 1, 15, true), dseg(15, 0, 0, 0, false)],
    };
    let fanned = mk().into_iter().save_separate(0);
    let ratings = mk()
        .into_iter()
        .only_ratings()
        .save_simplified()
        .into_iter()
        .save_aggressively_simplified(0);
    assert_eq!(fanned.rating_buffer.start, ratings.start);
    assert_eq!(fanned.rating_buffer.buffer, ratings.buffer);
    assert_eq!(fanned.offset_buffer.start, 0);
    // The offsets of the first two segments abut (10..15, then 15..20), so
    // they merge into one dragging segment.
    assert_eq!(fanned.offset_buffer.buffer.len(), 2);
    assert_eq!(
        fanned.offset_buffer.buffer[0],
        Segment { end_point: 10, data: OffsetInfo { offset: 10, drag: true } },
    );
}

#[test]
fn projections_split_the_dual_signal() {
    let mk = || DualBuffer { start: 0, buffer: vec![dseg(5, 7, 1, 3, false)] };
    let r = mk().into_iter().only_ratings().save();
    let o = mk().into_iter().only_offsets().save();
    assert_eq!(r.buffer, vec![rseg(5, 7, 1)]);
    assert_eq!(o.buffer, vec![Segment { end_point: 5, data: OffsetInfo { offset: 3, drag: false } }]);
}

#[test]
fn offset_buffer_lookup_and_ends() {
    let mk = || DualBuffer {
        start: 0,
        buffer: vec![dseg(5, 0, 0, 10, true), dseg(9, 0, 0, 2, false)],
    };
    let o = mk().into_iter().only_offsets().save();
    assert_eq!(o.len(), 2);
    assert_eq!(o.start(), 0);
    assert_eq!(o.end(), Some(9));
    assert_eq!(o.end_point(), Some(9));
    assert_eq!(o.get_offset_at(0), 10);
    assert_eq!(o.get_offset_at(4), 14);
    assert_eq!(o.get_offset_at(5), 2);
    assert_eq!(o.end_offset(), 2);
}

#[test]
fn differential_builder_integrates_slope_changes() {
    // Slope rises by 1 at the start, falls by 2 from t=4, returns to zero
    // from t=8: the ratings ramp up to 4 and back down to 0.
    let mut b = DifferentialRatingBufferBuilder::new(0, 12);
    b.add_segment(4, 1);
    b.add_segment(8, -2);
    b.extend_to_end();
    let buf = b.build().into_rating_iter().save();
    assert_eq!(buf.buffer, vec![rseg(4, 0, 0), rseg(8, 0, 1), rseg(12, 4, -1)]);
}

#[test]
fn differential_builder_merges_equal_ends() {
    let mut b = DifferentialRatingBufferBuilder::new(0, 10);
    b.add_segment(5, 2);
    b.add_segment(5, 3);
    b.extend_to_end();
    let buf = b.build().into_rating_iter().save();
    assert_eq!(buf.buffer, vec![rseg(5, 0, 0), rseg(10, 0, 5)]);
}

#[test]
fn rating_buffer_ends_and_first_end() {
    let buf = RatingBuffer { start: 2, buffer: vec![rseg(5, 1, 0), rseg(9, 1, 0)] };
    assert_eq!(buf.start(), 2);
    assert_eq!(buf.first_end_point(), Some(5));
    assert_eq!(buf.end(), Some(9));
    let empty = RatingBuffer { start: 0, buffer: vec![] };
    assert_eq!(empty.first_end_point(), None);
    assert_eq!(empty.end(), None);
}
