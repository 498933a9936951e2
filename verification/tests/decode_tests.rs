use blaze_face::decode::{
    decode_box, decode_candidates, decode_center, decode_detection, decode_keypoints, Anchor, DecodeError,
    Detection, Offset, Point, RawOutput, Regression,
};
use blaze_face::geometry::BoundingBox;

fn row(dx: i32, dy: i32, dw: i32, dh: i32) -> Regression {
    Regression { dx, dy, dw, dh, keypoints: Vec::new() }
}

#[test]
fn decode_center_formula() {
    // 2 * 100 * 5000 + 2 * 300
    assert_eq!(decode_center(5000, 300, 100), 1_000_600);
    assert_eq!(decode_center(5000, -300, 100), 999_400);
    assert_eq!(decode_center(-5000, 0, 100), -1_000_000);
    assert_eq!(decode_center(7, 9, 0), 18);
}

#[test]
fn decode_center_at_the_extremes() {
    assert_eq!(decode_center(i32::MAX, i32::MAX, u16::MAX), 2 * 65535 * 2147483647 + 2 * 2147483647);
    assert_eq!(decode_center(i32::MIN, i32::MIN, u16::MAX), -2 * 65535 * 2147483648 - 2 * 2147483648);
}

#[test]
fn decode_box_formula() {
    let anchor: Anchor = Anchor { cx: 5000, cy: 2500, w: 10000, h: 10000 };
    let regression: Regression = row(300, -200, 4000, 1000);
    let b: BoundingBox = decode_box(&anchor, &regression, 100);
    assert_eq!(b, BoundingBox { xmin: 996_600, ymin: 498_600, xmax: 1_004_600, ymax: 500_600 });
}

#[test]
fn zero_regression_decodes_to_the_anchor_center() {
    let anchor: Anchor = Anchor { cx: 1234, cy: -77, w: 10000, h: 10000 };
    let b: BoundingBox = decode_box(&anchor, &row(0, 0, 0, 0), 100);
    assert_eq!(b, BoundingBox { xmin: 246_800, ymin: -15_400, xmax: 246_800, ymax: -15_400 });
    assert_eq!(b.width(), 0);
    assert_eq!(b.height(), 0);
    assert_eq!(b.xmin, decode_center(1234, 0, 100));
    assert_eq!(b.ymin, decode_center(-77, 0, 100));
}

#[test]
fn keypoints_use_the_anchor_center_only() {
    let anchor: Anchor = Anchor { cx: 5000, cy: 2500, w: 1, h: 2 };
    let regression: Regression = Regression {
        dx: 9,
        dy: 9,
        dw: 9,
        dh: 9,
        keypoints: vec![Offset { dx: 10, dy: -10 }, Offset { dx: 0, dy: 0 }, Offset { dx: -1, dy: 1 }],
    };
    let points: Vec<Point> = decode_keypoints(&anchor, &regression, 100);
    assert_eq!(
        points,
        vec![
            Point { x: 1_000_020, y: 499_980 },
            Point { x: 1_000_000, y: 500_000 },
            Point { x: 999_998, y: 500_002 },
        ]
    );
}

#[test]
fn decode_detection_keeps_the_score() {
    let anchor: Anchor = Anchor { cx: 1, cy: 2, w: 3, h: 4 };
    let regression: Regression =
        Regression { dx: 5, dy: 6, dw: 7, dh: 8, keypoints: vec![Offset { dx: 1, dy: 1 }] };
    let d: Detection = decode_detection(&anchor, &regression, 10, 900_000);
    assert_eq!(
        d,
        Detection {
            score: 900_000,
            bbox: BoundingBox { xmin: 23, ymin: 44, xmax: 37, ymax: 60 },
            keypoints: vec![Point { x: 22, y: 42 }],
        }
    );
}

#[test]
fn clone_of_a_detection_is_equal() {
    let d: Detection = Detection {
        score: 5,
        bbox: BoundingBox { xmin: 1, ymin: 2, xmax: 3, ymax: 4 },
        keypoints: vec![Point { x: 1, y: 2 }, Point { x: 3, y: 4 }],
    };
    assert_eq!(d.clone(), d);
}

#[test]
fn candidates_below_the_threshold_are_dropped() {
    let anchors: Vec<Anchor> = vec![
        Anchor { cx: 10, cy: 10, w: 1, h: 1 },
        Anchor { cx: 20, cy: 20, w: 1, h: 1 },
        Anchor { cx: 30, cy: 30, w: 1, h: 1 },
        Anchor { cx: 40, cy: 40, w: 1, h: 1 },
    ];
    let raw: RawOutput = RawOutput {
        scores: vec![499_999, 500_000, 100_000, 900_000],
        regressions: vec![row(0, 0, 2, 2), row(0, 0, 2, 2), row(0, 0, 2, 2), row(1, 1, 4, 4)],
    };
    let found: Vec<Detection> = decode_candidates(&raw, &anchors, 100, 500_000).unwrap();
    assert_eq!(
        found,
        vec![
            Detection {
                score: 500_000,
                bbox: BoundingBox { xmin: 3998, ymin: 3998, xmax: 4002, ymax: 4002 },
                keypoints: Vec::new(),
            },
            Detection {
                score: 900_000,
                bbox: BoundingBox { xmin: 7998, ymin: 7998, xmax: 8006, ymax: 8006 },
                keypoints: Vec::new(),
            },
        ]
    );
    for d in found.iter() {
        assert!(d.score >= 500_000);
    }
}

#[test]
fn all_scores_below_the_threshold_give_no_candidate() {
    let anchors: Vec<Anchor> = vec![Anchor { cx: 10, cy: 10, w: 1, h: 1 }; 5];
    let raw: RawOutput = RawOutput { scores: vec![100_000; 5], regressions: vec![row(0, 0, 2, 2); 5] };
    let found: Vec<Detection> = decode_candidates(&raw, &anchors, 100, 500_000).unwrap();
    assert_eq!(found, Vec::new());
}

#[test]
fn no_anchor_gives_no_candidate() {
    let raw: RawOutput = RawOutput { scores: Vec::new(), regressions: Vec::new() };
    assert_eq!(decode_candidates(&raw, &Vec::new(), 100, 0), Ok(Vec::new()));
}

#[test]
fn a_missing_score_is_reported() {
    let anchors: Vec<Anchor> = vec![Anchor { cx: 10, cy: 10, w: 1, h: 1 }; 3];
    let raw: RawOutput = RawOutput { scores: vec![1, 2], regressions: vec![row(0, 0, 0, 0); 3] };
    assert_eq!(
        decode_candidates(&raw, &anchors, 100, 0),
        Err(DecodeError::ScoreCountMismatch { expected: 3, actual: 2 })
    );
}

#[test]
fn a_missing_regression_row_is_reported() {
    let anchors: Vec<Anchor> = vec![Anchor { cx: 10, cy: 10, w: 1, h: 1 }; 3];
    let raw: RawOutput = RawOutput { scores: vec![1, 2, 3], regressions: vec![row(0, 0, 0, 0); 4] };
    assert_eq!(
        decode_candidates(&raw, &anchors, 100, 0),
        Err(DecodeError::RegressionCountMismatch { expected: 3, actual: 4 })
    );
}

#[test]
fn a_missing_score_is_reported_before_a_missing_row() {
    let anchors: Vec<Anchor> = vec![Anchor { cx: 10, cy: 10, w: 1, h: 1 }; 3];
    let raw: RawOutput = RawOutput { scores: Vec::new(), regressions: Vec::new() };
    assert_eq!(
        decode_candidates(&raw, &anchors, 100, 0),
        Err(DecodeError::ScoreCountMismatch { expected: 3, actual: 0 })
    );
}

#[test]
fn candidate_scores_stay_within_one() {
    let anchors: Vec<Anchor> = vec![Anchor { cx: 10, cy: 10, w: 1, h: 1 }; 4];
    let raw: RawOutput = RawOutput { scores: vec![0, 1_000_000, 750_000, 749_999], regressions: vec![row(0, 0, 2, 2); 4] };
    let found: Vec<Detection> = decode_candidates(&raw, &anchors, 100, 750_000).unwrap();
    let scores: Vec<u32> = found.iter().map(|d| d.score).collect();
    assert_eq!(scores, vec![1_000_000, 750_000]);
}
