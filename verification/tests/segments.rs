use ant_grid::segment::{Segment, SegmentError};

fn angle_of(segment: &Segment) -> f64 {
    (segment.rise as f64).atan2(segment.run as f64)
}

#[test]
fn horizontal_segment_has_angle_zero_and_length_five() {
    let segment = Segment::from_pts((0, 0), (5, 0), 1).unwrap();
    assert_eq!(segment.run, 5);
    assert_eq!(segment.rise, 0);
    assert_eq!(angle_of(&segment), 0.0);
    assert_eq!(segment.length_squared, 25);
    assert_eq!(segment.length(), 5);
}

#[test]
fn vertical_segment_has_a_right_angle_and_length_five() {
    let up = Segment::from_pts((0, 0), (0, 5), 1).unwrap();
    assert_eq!(up.run, 0);
    assert_eq!(up.rise, 5);
    assert_eq!(angle_of(&up), std::f64::consts::FRAC_PI_2);
    assert_eq!(up.length(), 5);

    let down = Segment::from_pts((0, 5), (0, 0), 1).unwrap();
    assert_eq!(down.run, 0);
    assert_eq!(down.rise, -5);
    assert_eq!(angle_of(&down), -std::f64::consts::FRAC_PI_2);
    assert_eq!(down.length(), 5);
}

#[test]
fn segment_is_centred_on_the_midpoint() {
    let segment = Segment::from_pts((1, 2), (4, 6), 3).unwrap();
    assert_eq!(
        segment,
        Segment { center_x2: 5, center_y2: 8, run: 3, rise: 4, length_squared: 25, stroke: 3 }
    );
    assert_eq!(segment.length(), 5);
    assert_eq!(segment.center_x2 as f64 / 2.0, 2.5);
    assert_eq!(segment.center_y2 as f64 / 2.0, 4.0);
}

#[test]
fn segment_between_negative_points() {
    let segment = Segment::from_pts((-7, 3), (-1, -5), 2).unwrap();
    assert_eq!(segment.center_x2, -8);
    assert_eq!(segment.center_y2, -2);
    assert_eq!(segment.run, 6);
    assert_eq!(segment.rise, -8);
    assert_eq!(segment.length_squared, 100);
    assert_eq!(segment.length(), 10);
    assert_eq!(segment.stroke, 2);
}

#[test]
fn reversed_segment_keeps_centre_and_length() {
    let there = Segment::from_pts((2, 9), (12, -3), 1).unwrap();
    let back = Segment::from_pts((12, -3), (2, 9), 1).unwrap();
    assert_eq!(there.center_x2, back.center_x2);
    assert_eq!(there.center_y2, back.center_y2);
    assert_eq!(there.length_squared, back.length_squared);
    assert_eq!(there.run, -back.run);
    assert_eq!(there.rise, -back.rise);
}

#[test]
fn length_rounds_down_between_squares() {
    let diagonal = Segment::from_pts((0, 0), (1, 1), 1).unwrap();
    assert_eq!(diagonal.length_squared, 2);
    assert_eq!(diagonal.length(), 1);
    let longer = Segment::from_pts((0, 0), (2, 2), 1).unwrap();
    assert_eq!(longer.length_squared, 8);
    assert_eq!(longer.length(), 2);
    let almost = Segment::from_pts((0, 0), (3, 4), 1).unwrap();
    assert_eq!(almost.length(), 5);
    let short = Segment::from_pts((0, 0), (4, 2), 1).unwrap();
    assert_eq!(short.length_squared, 20);
    assert_eq!(short.length(), 4);
}

#[test]
fn longest_segment_does_not_overflow() {
    let segment =
        Segment::from_pts((i32::MIN, i32::MIN), (i32::MAX, i32::MAX), i32::MAX).unwrap();
    assert_eq!(segment.run, 4294967295);
    assert_eq!(segment.rise, 4294967295);
    assert_eq!(segment.center_x2, -1);
    assert_eq!(segment.center_y2, -1);
    assert_eq!(segment.length_squared, 36893488130239234050);
    assert_eq!(segment.length(), 6074000998);
}

#[test]
fn length_of_a_free_standing_segment() {
    let segment = Segment {
        center_x2: 0,
        center_y2: 0,
        run: 0,
        rise: 0,
        length_squared: u128::MAX,
        stroke: 1,
    };
    assert_eq!(segment.length(), u64::MAX);
    let nothing = Segment { length_squared: 0, ..segment };
    assert_eq!(nothing.length(), 0);
    let one = Segment { length_squared: 1, ..segment };
    assert_eq!(one.length(), 1);
    let three = Segment { length_squared: 3, ..segment };
    assert_eq!(three.length(), 1);
}

#[test]
fn coinciding_points_are_refused() {
    assert_eq!(Segment::from_pts((3, 4), (3, 4), 1), Err(SegmentError::ZeroLength));
    assert_eq!(Segment::from_pts((0, 0), (0, 0), 1), Err(SegmentError::ZeroLength));
}

#[test]
fn coinciding_points_are_refused_before_the_stroke() {
    assert_eq!(Segment::from_pts((3, 4), (3, 4), 0), Err(SegmentError::ZeroLength));
}

#[test]
fn stroke_must_be_positive() {
    assert_eq!(Segment::from_pts((0, 0), (5, 0), 0), Err(SegmentError::InvalidStroke));
    assert_eq!(Segment::from_pts((0, 0), (5, 0), -1), Err(SegmentError::InvalidStroke));
    assert!(Segment::from_pts((0, 0), (5, 0), 1).is_ok());
}
