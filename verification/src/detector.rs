//! A loaded detector: a profile, its anchors and its thresholds.

use vstd::prelude::*;
use crate::decode::{
    candidates, decode_candidates, detection_views, lemma_candidates_depend_on_values,
    lemma_candidate_scores_in_range, lemma_candidates_reach_threshold, scores_within_unit, Anchor, DecodeError, Detection, DetectionView, RawOutput,
};
use crate::geometry::{iou_at_least, UNIT};
use crate::profile::{ModelType, INPUT_CHANNELS, REGRESSION_SCALE};
use crate::suppress::{lemma_suppressed_members, lemma_suppressed_pairwise_below, suppress, suppressed};

verus! {

/// Why a detector cannot be put together.
#[derive(Clone, Copy, Debug, PartialEq, Eq, Structural)]
pub enum LoadError {
    /// The anchor table does not have the profile's number of rows.
    AnchorCountMismatch { expected: usize, actual: usize },
}

/// An input whose shape is not the one that the profile asks for.
#[derive(Clone, Copy, Debug, PartialEq, Eq, Structural)]
pub struct ShapeMismatch {
    pub expected_channels: u32,
    pub expected_height: u32,
    pub expected_width: u32,
    pub channels: u32,
    pub height: u32,
    pub width: u32,
}

/// What a detector holds, as plain values.
pub struct BlazeFaceView {
    pub model_type: ModelType,
    pub anchors: Seq<Anchor>,
    pub scale: int,
    pub min_score_threshold: int,
    pub min_suppression_threshold: int,
}

/// A detector that is ready to decode. Nothing changes it once it is made.
#[derive(Debug)]
pub struct BlazeFace {
    model_type: ModelType,
    anchors: Vec<Anchor>,
    scale: u16,
    min_score_threshold: u32,
    min_suppression_threshold: u32,
}

impl View for BlazeFace {
    type V = BlazeFaceView;

    closed spec fn view(&self) -> BlazeFaceView {
        BlazeFaceView {
            model_type: self.model_type,
            anchors: self.anchors@,
            scale: self.scale as int,
            min_score_threshold: self.min_score_threshold as int,
            min_suppression_threshold: self.min_suppression_threshold as int,
        }
    }
}

/// The detections that a detector reports for raw output: the candidates
/// that reach the score threshold, after suppression.
pub open spec fn detections(model: BlazeFaceView, raw: RawOutput) -> Seq<DetectionView> {
    suppressed(
        candidates(raw, model.anchors, model.scale, model.min_score_threshold),
        model.min_suppression_threshold,
    )
}

/// Whether an input of the given shape suits the profile.
pub open spec fn shape_matches(model_type: ModelType, channels: u32, height: u32, width: u32) -> bool {
    &&& channels == INPUT_CHANNELS
    &&& height == model_type.spec_input_size()
    &&& width == model_type.spec_input_size()
}

/// Every reported detection reaches the score threshold, and there are no
/// more detections than anchors.
pub proof fn lemma_detections_reach_score_threshold(model: BlazeFaceView, raw: RawOutput)
    ensures
        detections(model, raw).len() <= model.anchors.len(),
        forall|j: int|
            0 <= j < detections(model, raw).len() ==> (#[trigger] detections(model, raw)[j]).score
                >= model.min_score_threshold,
{
    let found = candidates(raw, model.anchors, model.scale, model.min_score_threshold);
    lemma_candidates_reach_threshold(
        raw.scores@,
        raw.regressions@,
        model.anchors,
        model.scale,
        model.min_score_threshold,
        model.anchors.len(),
    );
    lemma_suppressed_members(found, model.min_suppression_threshold);
    assert forall|j: int| 0 <= j < detections(model, raw).len() implies (#[trigger] detections(model, raw)[j]).score
        >= model.min_score_threshold by {
        let d = detections(model, raw)[j];
        assert(found.contains(d));
        let w = choose|w: int| 0 <= w < found.len() && found[w] == d;
        assert(found[w].score >= model.min_score_threshold);
    }
}

/// Where no raw score exceeds `UNIT`, every reported detection has a score
/// between the score threshold and `UNIT`.
pub proof fn lemma_detection_scores_in_range(model: BlazeFaceView, raw: RawOutput)
    requires
        scores_within_unit(raw.scores@, model.anchors.len() as int),
    ensures
        forall|j: int|
            0 <= j < detections(model, raw).len() ==> model.min_score_threshold <= (#[trigger] detections(
                model,
                raw,
            )[j]).score <= UNIT,
{
    let found = candidates(raw, model.anchors, model.scale, model.min_score_threshold);
    lemma_candidate_scores_in_range(
        raw.scores@,
        raw.regressions@,
        model.anchors,
        model.scale,
        model.min_score_threshold,
        model.anchors.len(),
    );
    lemma_suppressed_members(found, model.min_suppression_threshold);
    assert forall|j: int| 0 <= j < detections(model, raw).len() implies model.min_score_threshold <= (
    #[trigger] detections(model, raw)[j]).score <= UNIT by {
        let d = detections(model, raw)[j];
        assert(found.contains(d));
        let w = choose|w: int| 0 <= w < found.len() && found[w] == d;
        assert(model.min_score_threshold <= found[w].score <= UNIT);
    }
}

/// No two reported detections overlap as much as the suppression threshold.
pub proof fn lemma_detections_pairwise_below(model: BlazeFaceView, raw: RawOutput)
    ensures
        forall|i: int, j: int|
            0 <= i < detections(model, raw).len() && 0 <= j < detections(model, raw).len() && i != j
                ==> !iou_at_least(
                (#[trigger] detections(model, raw)[i]).bbox,
                (#[trigger] detections(model, raw)[j]).bbox,
                model.min_suppression_threshold,
            ),
{
    lemma_suppressed_pairwise_below(
        candidates(raw, model.anchors, model.scale, model.min_score_threshold),
        model.min_suppression_threshold,
    );
}

/// Two runs on the same anchors and thresholds, and on raw output that
/// holds the same values, report the same detections.
pub proof fn lemma_detections_repeat(model: BlazeFaceView, first: RawOutput, second: RawOutput)
    requires
        first.scores@ == second.scores@,
        first.regressions@.len() == second.regressions@.len(),
        forall|i: int| 0 <= i < first.regressions@.len() ==> (#[trigger] first.regressions@[i])@ == second.regressions@[i]@,
        model.anchors.len() <= first.regressions@.len(),
    ensures
        detections(model, first) == detections(model, second),
{
    lemma_candidates_depend_on_values(
        first.scores@,
        first.regressions@,
        second.regressions@,
        model.anchors,
        model.scale,
        model.min_score_threshold,
        model.anchors.len(),
    );
}

/// Puts a detector together from a profile, its anchor table and the two
/// thresholds. The regression scale is fixed. Fails where the table does not
/// have the profile's number of anchors.
pub fn load_model(
    model_type: ModelType,
    anchors: Vec<Anchor>,
    min_score_threshold: u32,
    min_suppression_threshold: u32,
) -> (r: Result<BlazeFace, LoadError>)
    ensures
        match r {
            Ok(model) => {
                &&& anchors@.len() == model_type.spec_anchor_count()
                &&& model.wf()
                &&& model@ == (BlazeFaceView {
                    model_type,
                    anchors: anchors@,
                    scale: REGRESSION_SCALE as int,
                    min_score_threshold: min_score_threshold as int,
                    min_suppression_threshold: min_suppression_threshold as int,
                })
            },
            Err(LoadError::AnchorCountMismatch { expected, actual }) => {
                &&& anchors@.len() != model_type.spec_anchor_count()
                &&& expected == model_type.spec_anchor_count()
                &&& actual == anchors@.len()
            },
        },
{
    let expected: usize = model_type.anchor_count();
    let actual: usize = anchors.len();
    if actual != expected {
        return Err(LoadError::AnchorCountMismatch { expected, actual });
    }
    Ok(BlazeFace { model_type, anchors, scale: REGRESSION_SCALE, min_score_threshold, min_suppression_threshold })
}

impl BlazeFace {
    /// The anchor table has the profile's number of rows. This holds of
    /// every detector.
    pub open spec fn wf(&self) -> bool {
        self@.anchors.len() == self@.model_type.spec_anchor_count()
    }

    #[verifier::type_invariant]
    spec fn aligned(self) -> bool {
        self.anchors@.len() == self.model_type.spec_anchor_count()
    }

    pub fn model_type(&self) -> (t: ModelType)
        ensures
            t == self@.model_type,
    {
        self.model_type
    }

    pub fn anchors(&self) -> (a: &Vec<Anchor>)
        ensures
            a@ == self@.anchors,
            a@.len() == self@.model_type.spec_anchor_count(),
    {
        proof {
            use_type_invariant(self);
        }
        &self.anchors
    }

    pub fn scale(&self) -> (s: u16)
        ensures
            s == self@.scale,
    {
        self.scale
    }

    pub fn min_score_threshold(&self) -> (t: u32)
        ensures
            t == self@.min_score_threshold,
    {
        self.min_score_threshold
    }

    pub fn min_suppression_threshold(&self) -> (t: u32)
        ensures
            t == self@.min_suppression_threshold,
    {
        self.min_suppression_threshold
    }

    /// Accepts an input of exactly the profile's shape, and no other.
    pub fn check_input_shape(&self, channels: u32, height: u32, width: u32) -> (r: Result<(), ShapeMismatch>)
        ensures
            r.is_ok() <==> shape_matches(self@.model_type, channels, height, width),
            r.is_err() ==> r.unwrap_err() == (ShapeMismatch {
                expected_channels: INPUT_CHANNELS,
                expected_height: self@.model_type.spec_input_size() as u32,
                expected_width: self@.model_type.spec_input_size() as u32,
                channels,
                height,
                width,
            }),
    {
        let side: u32 = self.model_type.input_size();
        if channels == INPUT_CHANNELS && height == side && width == side {
            Ok(())
        } else {
            Err(
                ShapeMismatch {
                    expected_channels: INPUT_CHANNELS,
                    expected_height: side,
                    expected_width: side,
                    channels,
                    height,
                    width,
                },
            )
        }
    }

    /// Decodes raw output against the anchors, drops what stays below the
    /// score threshold, and suppresses overlapping candidates. Fails where
    /// the raw output does not hold one score and one regression row for
    /// each anchor. Every reported score reaches the score threshold, and
    /// stays within `UNIT` where the raw scores do.
    pub fn detect(&self, raw: &RawOutput) -> (r: Result<Vec<Detection>, DecodeError>)
        ensures
            match r {
                Ok(found) => {
                    &&& raw.scores@.len() == self@.anchors.len()
                    &&& raw.regressions@.len() == self@.anchors.len()
                    &&& raw.scores@.len() == self@.model_type.spec_anchor_count()
                    &&& detection_views(found@) == detections(self@, *raw)
                    &&& forall|j: int| 0 <= j < found@.len() ==> (#[trigger] found@[j]).bbox.wf()
                    &&& forall|j: int|
                        0 <= j < found@.len() ==> (#[trigger] found@[j]).score >= self@.min_score_threshold
                    &&& scores_within_unit(raw.scores@, self@.anchors.len() as int) ==> forall|j: int|
                        0 <= j < found@.len() ==> (#[trigger] found@[j]).score <= UNIT
                },
                Err(DecodeError::ScoreCountMismatch { expected, actual }) => {
                    &&& raw.scores@.len() != self@.anchors.len()
                    &&& expected == self@.anchors.len()
                    &&& actual == raw.scores@.len()
                },
                Err(DecodeError::RegressionCountMismatch { expected, actual }) => {
                    &&& raw.scores@.len() == self@.anchors.len()
                    &&& raw.regressions@.len() != self@.anchors.len()
                    &&& expected == self@.anchors.len()
                    &&& actual == raw.regressions@.len()
                },
            },
    {
        proof {
            use_type_invariant(self);
        }
        match decode_candidates(raw, &self.anchors, self.scale, self.min_score_threshold) {
            Ok(found) => {
                let kept = suppress(found, self.min_suppression_threshold);
                proof {
                    lemma_detections_reach_score_threshold(self@, *raw);
                    if scores_within_unit(raw.scores@, self@.anchors.len() as int) {
                        lemma_detection_scores_in_range(self@, *raw);
                    }
                    assert forall|j: int| 0 <= j < kept@.len() implies (#[trigger] kept@[j]).score
                        == detections(self@, *raw)[j].score by {
                        assert(detection_views(kept@)[j] == kept@[j]@);
                    }
                }
                Ok(kept)
            },
            Err(e) => Err(e),
        }
    }
}

} // verus!
