//! From anchors and raw regression values to candidate detections.
//!
//! Anchor coordinates are fixed-point fractions of the image side. A raw
//! regression value is an offset in the same fixed point, multiplied by the
//! regression scale. Dividing by the scale and halving a width would leave
//! the integers, so a decoded coordinate is given in a finer grid instead:
//! one anchor step is `2 * scale` steps of the decoded grid. In that grid
//! every formula below is exact.

use vstd::prelude::*;
use crate::geometry::{BoundingBox, BoxView, UNIT};

verus! {

/// A reference box: centre and size.
#[derive(Clone, Copy, Debug, PartialEq, Eq, Structural)]
pub struct Anchor {
    pub cx: i32,
    pub cy: i32,
    pub w: i32,
    pub h: i32,
}

/// Raw offset of one keypoint from its anchor's centre.
#[derive(Clone, Copy, Debug, PartialEq, Eq, Structural)]
pub struct Offset {
    pub dx: i32,
    pub dy: i32,
}

/// One row of the regression output: the box first, then the keypoints.
#[derive(Clone, Debug, PartialEq, Eq)]
pub struct Regression {
    pub dx: i32,
    pub dy: i32,
    pub dw: i32,
    pub dh: i32,
    pub keypoints: Vec<Offset>,
}

/// A decoded keypoint.
#[derive(Clone, Copy, Debug, PartialEq, Eq, Structural)]
pub struct Point {
    pub x: i64,
    pub y: i64,
}

/// A face candidate: confidence, box and keypoints.
#[derive(Debug, PartialEq, Eq)]
pub struct Detection {
    pub score: u32,
    pub bbox: BoundingBox,
    pub keypoints: Vec<Point>,
}

/// What the network returns for one image: a score and a regression row for
/// each anchor. Scores are confidences after activation, in fixed point:
/// `UNIT` stands for 1.
#[derive(Clone, Debug, PartialEq, Eq)]
pub struct RawOutput {
    pub scores: Vec<u32>,
    pub regressions: Vec<Regression>,
}

/// Why raw output cannot be decoded against a set of anchors.
#[derive(Clone, Copy, Debug, PartialEq, Eq, Structural)]
pub enum DecodeError {
    /// There is not one score for each anchor.
    ScoreCountMismatch { expected: usize, actual: usize },
    /// There is not one regression row for each anchor.
    RegressionCountMismatch { expected: usize, actual: usize },
}

pub struct RegressionView {
    pub dx: int,
    pub dy: int,
    pub dw: int,
    pub dh: int,
    pub keypoints: Seq<(int, int)>,
}

pub struct DetectionView {
    pub score: int,
    pub bbox: BoxView,
    pub keypoints: Seq<(int, int)>,
}

impl View for Regression {
    type V = RegressionView;

    open spec fn view(&self) -> RegressionView {
        RegressionView {
            dx: self.dx as int,
            dy: self.dy as int,
            dw: self.dw as int,
            dh: self.dh as int,
            keypoints: Seq::new(
                self.keypoints@.len(),
                |k: int| (self.keypoints@[k].dx as int, self.keypoints@[k].dy as int),
            ),
        }
    }
}

impl View for Detection {
    type V = DetectionView;

    open spec fn view(&self) -> DetectionView {
        DetectionView {
            score: self.score as int,
            bbox: self.bbox@,
            keypoints: Seq::new(
                self.keypoints@.len(),
                |k: int| (self.keypoints@[k].x as int, self.keypoints@[k].y as int),
            ),
        }
    }
}

/// The views of a sequence of detections, in the same order.
pub open spec fn detection_views(detections: Seq<Detection>) -> Seq<DetectionView> {
    Seq::new(detections.len(), |i: int| detections[i]@)
}

/// An anchor coordinate, in the decoded grid.
pub open spec fn anchor_in_grid(c: int, scale: int) -> int {
    2 * (scale * c)
}

/// `center + offset / scale`, in the decoded grid.
pub open spec fn decoded_center(center: int, offset: int, scale: int) -> int {
    anchor_in_grid(center, scale) + 2 * offset
}

/// `center + offset / scale - (size / scale) / 2`, in the decoded grid.
pub open spec fn decoded_low(center: int, offset: int, size: int, scale: int) -> int {
    decoded_center(center, offset, scale) - size
}

/// `center + offset / scale + (size / scale) / 2`, in the decoded grid.
pub open spec fn decoded_high(center: int, offset: int, size: int, scale: int) -> int {
    decoded_center(center, offset, scale) + size
}

/// The box that an anchor and a regression row stand for.
pub open spec fn decoded_box(anchor: Anchor, regression: RegressionView, scale: int) -> BoxView {
    BoxView {
        xmin: decoded_low(anchor.cx as int, regression.dx, regression.dw, scale),
        ymin: decoded_low(anchor.cy as int, regression.dy, regression.dh, scale),
        xmax: decoded_high(anchor.cx as int, regression.dx, regression.dw, scale),
        ymax: decoded_high(anchor.cy as int, regression.dy, regression.dh, scale),
    }
}

/// The keypoints that an anchor and a regression row stand for. A keypoint
/// has no size: only the anchor's centre enters.
pub open spec fn decoded_keypoints(anchor: Anchor, offsets: Seq<(int, int)>, scale: int) -> Seq<(int, int)> {
    Seq::new(
        offsets.len(),
        |k: int| (decoded_center(anchor.cx as int, offsets[k].0, scale), decoded_center(anchor.cy as int, offsets[k].1, scale)),
    )
}

/// The detection that an anchor, its regression row and its score stand for.
pub open spec fn decoded_detection(anchor: Anchor, regression: RegressionView, scale: int, score: int) -> DetectionView {
    DetectionView {
        score,
        bbox: decoded_box(anchor, regression, scale),
        keypoints: decoded_keypoints(anchor, regression.keypoints, scale),
    }
}

/// The candidates among the first `n` anchors: those whose score reaches
/// `min_score`, decoded, in the anchors' order.
pub open spec fn candidates_upto(
    scores: Seq<u32>,
    regressions: Seq<Regression>,
    anchors: Seq<Anchor>,
    scale: int,
    min_score: int,
    n: nat,
) -> Seq<DetectionView>
    decreases n,
{
    if n == 0 {
        Seq::empty()
    } else {
        let i = n - 1;
        let before = candidates_upto(scores, regressions, anchors, scale, min_score, i as nat);
        if scores[i] >= min_score {
            before.push(decoded_detection(anchors[i], regressions[i]@, scale, scores[i] as int))
        } else {
            before
        }
    }
}

/// The candidates among all anchors.
pub open spec fn candidates(raw: RawOutput, anchors: Seq<Anchor>, scale: int, min_score: int) -> Seq<DetectionView> {
    candidates_upto(raw.scores@, raw.regressions@, anchors, scale, min_score, anchors.len())
}

/// Every candidate's score reaches the threshold, and every candidate is the
/// decoding of one anchor with its own row and score.
pub proof fn lemma_candidates_reach_threshold(
    scores: Seq<u32>,
    regressions: Seq<Regression>,
    anchors: Seq<Anchor>,
    scale: int,
    min_score: int,
    n: nat,
)
    ensures
        candidates_upto(scores, regressions, anchors, scale, min_score, n).len() <= n,
        forall|j: int|
            0 <= j < candidates_upto(scores, regressions, anchors, scale, min_score, n).len() ==> {
                let c = #[trigger] candidates_upto(scores, regressions, anchors, scale, min_score, n)[j];
                &&& c.score >= min_score
                &&& exists|i: int|
                    0 <= i < n && scores[i] >= min_score && c == decoded_detection(
                        anchors[i],
                        regressions[i]@,
                        scale,
                        scores[i] as int,
                    )
            },
    decreases n,
{
    if n > 0 {
        let i = (n - 1) as nat;
        lemma_candidates_reach_threshold(scores, regressions, anchors, scale, min_score, i);
        let before = candidates_upto(scores, regressions, anchors, scale, min_score, i);
        let all = candidates_upto(scores, regressions, anchors, scale, min_score, n);
        assert forall|j: int| 0 <= j < all.len() implies {
            let c = #[trigger] all[j];
            &&& c.score >= min_score
            &&& exists|i: int|
                0 <= i < n && scores[i] >= min_score && c == decoded_detection(
                    anchors[i],
                    regressions[i]@,
                    scale,
                    scores[i] as int,
                )
        } by {
            if j < before.len() {
                assert(all[j] == before[j]);
                let w = choose|w: int|
                    0 <= w < i && scores[w] >= min_score && before[j] == decoded_detection(
                        anchors[w],
                        regressions[w]@,
                        scale,
                        scores[w] as int,
                    );
                assert(0 <= w < n);
            } else {
                assert(all[j] == decoded_detection(anchors[i as int], regressions[i as int]@, scale, scores[i as int] as int));
            }
        }
    }
}

/// The candidates depend on the values that the raw output holds and on
/// nothing else: equal scores and equal regression rows give equal
/// candidates.
pub proof fn lemma_candidates_depend_on_values(
    scores: Seq<u32>,
    first: Seq<Regression>,
    second: Seq<Regression>,
    anchors: Seq<Anchor>,
    scale: int,
    min_score: int,
    n: nat,
)
    requires
        forall|i: int| 0 <= i < n ==> (#[trigger] first[i])@ == second[i]@,
    ensures
        candidates_upto(scores, first, anchors, scale, min_score, n) == candidates_upto(
            scores,
            second,
            anchors,
            scale,
            min_score,
            n,
        ),
    decreases n,
{
    if n > 0 {
        lemma_candidates_depend_on_values(scores, first, second, anchors, scale, min_score, (n - 1) as nat);
        assert(first[n - 1]@ == second[n - 1]@);
    }
}

/// Whether the first `n` scores are confidences: none exceeds `UNIT`.
pub open spec fn scores_within_unit(scores: Seq<u32>, n: int) -> bool {
    forall|i: int| 0 <= i < n ==> #[trigger] scores[i] <= UNIT
}

/// Where no raw score exceeds `UNIT`, every candidate's score lies between
/// the threshold and `UNIT`.
pub proof fn lemma_candidate_scores_in_range(
    scores: Seq<u32>,
    regressions: Seq<Regression>,
    anchors: Seq<Anchor>,
    scale: int,
    min_score: int,
    n: nat,
)
    requires
        scores_within_unit(scores, n as int),
    ensures
        forall|j: int|
            0 <= j < candidates_upto(scores, regressions, anchors, scale, min_score, n).len() ==> min_score <= (
            #[trigger] candidates_upto(scores, regressions, anchors, scale, min_score, n)[j]).score <= UNIT,
{
    lemma_candidates_reach_threshold(scores, regressions, anchors, scale, min_score, n);
    let all = candidates_upto(scores, regressions, anchors, scale, min_score, n);
    assert forall|j: int| 0 <= j < all.len() implies min_score <= (#[trigger] all[j]).score <= UNIT by {
        let c = all[j];
        let i = choose|i: int|
            0 <= i < n && scores[i] >= min_score && c == decoded_detection(
                anchors[i],
                regressions[i]@,
                scale,
                scores[i] as int,
            );
        assert(scores[i] <= UNIT);
    }
}

/// With scores all below the threshold there is no candidate.
pub proof fn lemma_no_candidate_below_threshold(
    scores: Seq<u32>,
    regressions: Seq<Regression>,
    anchors: Seq<Anchor>,
    scale: int,
    min_score: int,
    n: nat,
)
    requires
        forall|i: int| 0 <= i < n ==> scores[i] < min_score,
    ensures
        candidates_upto(scores, regressions, anchors, scale, min_score, n).len() == 0,
    decreases n,
{
    if n > 0 {
        lemma_no_candidate_below_threshold(scores, regressions, anchors, scale, min_score, (n - 1) as nat);
    }
}

/// A regression row of zeros decodes to a box of no width and no height
/// that sits on the anchor's own centre.
pub proof fn lemma_zero_regression_is_anchor_center(anchor: Anchor, keypoints: Seq<(int, int)>, scale: int)
    ensures
        ({
            let b = decoded_box(anchor, RegressionView { dx: 0, dy: 0, dw: 0, dh: 0, keypoints }, scale);
            &&& b.xmin == anchor_in_grid(anchor.cx as int, scale)
            &&& b.xmax == anchor_in_grid(anchor.cx as int, scale)
            &&& b.ymin == anchor_in_grid(anchor.cy as int, scale)
            &&& b.ymax == anchor_in_grid(anchor.cy as int, scale)
            &&& b.width() == 0
            &&& b.height() == 0
            &&& b.area() == 0
        }),
{
}

/// The product of a scale and an anchor coordinate stays small.
proof fn lemma_scaled_center_bounds(scale: int, c: int)
    requires
        0 <= scale <= 0xffff,
        -0x8000_0000 <= c <= 0x7fff_ffff,
    ensures
        -0xffff * 0x8000_0000 <= scale * c <= 0xffff * 0x8000_0000,
{
    assert(scale * c <= 0xffff * 0x8000_0000) by (nonlinear_arith)
        requires
            0 <= scale <= 0xffff,
            c <= 0x8000_0000,
    ;
    assert(-0xffff * 0x8000_0000 <= scale * c) by (nonlinear_arith)
        requires
            0 <= scale <= 0xffff,
            -0x8000_0000 <= c,
    ;
}

/// `center + offset / scale` in the decoded grid.
pub fn decode_center(center: i32, offset: i32, scale: u16) -> (c: i64)
    ensures
        c == decoded_center(center as int, offset as int, scale as int),
        -0x1_0000_0000_0000 <= c <= 0x1_0000_0000_0000,
{
    proof {
        lemma_scaled_center_bounds(scale as int, center as int);
    }
    let scaled: i64 = (scale as i64) * (center as i64);
    2 * scaled + 2 * (offset as i64)
}

/// The box of one anchor.
pub fn decode_box(anchor: &Anchor, regression: &Regression, scale: u16) -> (b: BoundingBox)
    ensures
        b@ == decoded_box(*anchor, regression@, scale as int),
        b.wf(),
{
    let cx: i64 = decode_center(anchor.cx, regression.dx, scale);
    let cy: i64 = decode_center(anchor.cy, regression.dy, scale);
    let w: i64 = regression.dw as i64;
    let h: i64 = regression.dh as i64;
    BoundingBox { xmin: cx - w, ymin: cy - h, xmax: cx + w, ymax: cy + h }
}

/// The keypoints of one anchor.
pub fn decode_keypoints(anchor: &Anchor, regression: &Regression, scale: u16) -> (points: Vec<Point>)
    ensures
        points@.len() == regression.keypoints@.len(),
        forall|k: int|
            0 <= k < points@.len() ==> (#[trigger] points@[k].x as int, points@[k].y as int) == decoded_keypoints(
                *anchor,
                regression@.keypoints,
                scale as int,
            )[k],
{
    let mut points: Vec<Point> = Vec::new();
    let mut k: usize = 0;
    while k < regression.keypoints.len()
        invariant
            k <= regression.keypoints@.len(),
            points@.len() == k,
            forall|j: int|
                0 <= j < k ==> (#[trigger] points@[j].x as int, points@[j].y as int) == decoded_keypoints(
                    *anchor,
                    regression@.keypoints,
                    scale as int,
                )[j],
        decreases regression.keypoints@.len() - k,
    {
        let offset: Offset = regression.keypoints[k];
        let x: i64 = decode_center(anchor.cx, offset.dx, scale);
        let y: i64 = decode_center(anchor.cy, offset.dy, scale);
        points.push(Point { x, y });
        k += 1;
    }
    points
}

/// The detection of one anchor with the given score.
pub fn decode_detection(anchor: &Anchor, regression: &Regression, scale: u16, score: u32) -> (d: Detection)
    ensures
        d@ == decoded_detection(*anchor, regression@, scale as int, score as int),
        d.bbox.wf(),
{
    let bbox = decode_box(anchor, regression, scale);
    let keypoints = decode_keypoints(anchor, regression, scale);
    let d = Detection { score, bbox, keypoints };
    proof {
        assert(d@.keypoints =~= decoded_keypoints(*anchor, regression@.keypoints, scale as int));
    }
    d
}

/// Decodes every anchor whose score reaches `min_score`, in the anchors'
/// order. Fails where the scores or the regression rows do not line up with
/// the anchors one to one. Where the raw scores are confidences, so are the
/// candidates' scores.
pub fn decode_candidates(raw: &RawOutput, anchors: &Vec<Anchor>, scale: u16, min_score: u32) -> (r: Result<
    Vec<Detection>,
    DecodeError,
>)
    ensures
        match r {
            Ok(found) => {
                &&& raw.scores@.len() == anchors@.len()
                &&& raw.regressions@.len() == anchors@.len()
                &&& detection_views(found@) == candidates(*raw, anchors@, scale as int, min_score as int)
                &&& forall|j: int| 0 <= j < found@.len() ==> (#[trigger] found@[j]).bbox.wf()
                &&& forall|j: int| 0 <= j < found@.len() ==> (#[trigger] found@[j]).score >= min_score
                &&& scores_within_unit(raw.scores@, anchors@.len() as int) ==> forall|j: int|
                    0 <= j < found@.len() ==> (#[trigger] found@[j]).score <= UNIT
            },
            Err(DecodeError::ScoreCountMismatch { expected, actual }) => {
                &&& raw.scores@.len() != anchors@.len()
                &&& expected == anchors@.len()
                &&& actual == raw.scores@.len()
            },
            Err(DecodeError::RegressionCountMismatch { expected, actual }) => {
                &&& raw.scores@.len() == anchors@.len()
                &&& raw.regressions@.len() != anchors@.len()
                &&& expected == anchors@.len()
                &&& actual == raw.regressions@.len()
            },
        },
{
    let n: usize = anchors.len();
    if raw.scores.len() != n {
        return Err(DecodeError::ScoreCountMismatch { expected: n, actual: raw.scores.len() });
    }
    if raw.regressions.len() != n {
        return Err(DecodeError::RegressionCountMismatch { expected: n, actual: raw.regressions.len() });
    }
    let mut found: Vec<Detection> = Vec::new();
    let mut i: usize = 0;
    while i < n
        invariant
            i <= n,
            n == anchors@.len(),
            raw.scores@.len() == n,
            raw.regressions@.len() == n,
            detection_views(found@) == candidates_upto(
                raw.scores@,
                raw.regressions@,
                anchors@,
                scale as int,
                min_score as int,
                i as nat,
            ),
            forall|j: int| 0 <= j < found@.len() ==> (#[trigger] found@[j]).bbox.wf(),
            forall|j: int| 0 <= j < found@.len() ==> (#[trigger] found@[j]).score >= min_score,
            scores_within_unit(raw.scores@, n as int) ==> forall|j: int|
                0 <= j < found@.len() ==> (#[trigger] found@[j]).score <= UNIT,
        decreases n - i,
    {
        let score: u32 = raw.scores[i];
        if score >= min_score {
            let d = decode_detection(&anchors[i], &raw.regressions[i], scale, score);
            let ghost before = found@;
            found.push(d);
            proof {
                assert(detection_views(found@) =~= detection_views(before).push(d@));
            }
        }
        i += 1;
    }
    Ok(found)
}

impl Clone for Detection {
    fn clone(&self) -> (copy: Detection)
        ensures
            copy@ == self@,
            copy.score == self.score,
            copy.bbox == self.bbox,
            copy.keypoints@ == self.keypoints@,
    {
        let mut keypoints: Vec<Point> = Vec::new();
        let mut k: usize = 0;
        while k < self.keypoints.len()
            invariant
                k <= self.keypoints@.len(),
                keypoints@ == self.keypoints@.take(k as int),
            decreases self.keypoints@.len() - k,
        {
            let p: Point = self.keypoints[k];
            keypoints.push(p);
            proof {
                assert(keypoints@ =~= self.keypoints@.take(k + 1));
            }
            k += 1;
        }
        proof {
            assert(self.keypoints@.take(k as int) =~= self.keypoints@);
        }
        let copy = Detection { score: self.score, bbox: self.bbox, keypoints };
        proof {
            assert(copy@.keypoints =~= self@.keypoints);
        }
        copy
    }
}

} // verus!
