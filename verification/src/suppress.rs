//! Greedy non-maximum suppression.
//!
//! The candidate of highest score wins; every other candidate whose box
//! overlaps the winner's too much is dropped; the same is done again with
//! what is left. Among candidates of equal score the one that comes first
//! in the list wins, so the result depends on the list alone.

use vstd::prelude::*;
use crate::decode::{detection_views, Detection, DetectionView};
use crate::geometry::{iou_at_least, lemma_iou_symmetric, BoundingBox, BoxView};

verus! {

/// Position of the first candidate of highest score; 0 for an empty list.
pub open spec fn best_index(c: Seq<DetectionView>) -> int
    decreases c.len(),
{
    if c.len() <= 1 {
        0
    } else {
        let before = best_index(c.drop_last());
        if c.last().score > c[before].score {
            c.len() - 1
        } else {
            before
        }
    }
}

/// The candidates whose overlap with the winner stays below the threshold,
/// in their order.
pub open spec fn survivors(winner: BoxView, c: Seq<DetectionView>, threshold: int) -> Seq<DetectionView>
    decreases c.len(),
{
    if c.len() == 0 {
        Seq::empty()
    } else {
        let before = survivors(winner, c.drop_last(), threshold);
        if iou_at_least(winner, c.last().bbox, threshold) {
            before
        } else {
            before.push(c.last())
        }
    }
}

/// What greedy suppression keeps of a list of candidates.
pub open spec fn suppressed(c: Seq<DetectionView>, threshold: int) -> Seq<DetectionView>
    decreases c.len(),
    via suppressed_terminates
{
    if c.len() == 0 {
        Seq::empty()
    } else {
        let k = best_index(c);
        seq![c[k]] + suppressed(survivors(c[k].bbox, c.remove(k), threshold), threshold)
    }
}

#[via_fn]
proof fn suppressed_terminates(c: Seq<DetectionView>, threshold: int) {
    if c.len() != 0 {
        lemma_best_index(c);
        let k = best_index(c);
        lemma_survivors(c[k].bbox, c.remove(k), threshold);
    }
}

/// The best index points into the list, at a score that none exceeds and
/// that none before it equals.
pub proof fn lemma_best_index(c: Seq<DetectionView>)
    requires
        c.len() > 0,
    ensures
        0 <= best_index(c) < c.len(),
        forall|j: int| 0 <= j < c.len() ==> (#[trigger] c[j]).score <= c[best_index(c)].score,
        forall|j: int| 0 <= j < best_index(c) ==> (#[trigger] c[j]).score < c[best_index(c)].score,
    decreases c.len(),
{
    if c.len() > 1 {
        let head = c.drop_last();
        lemma_best_index(head);
        assert forall|j: int| 0 <= j < c.len() implies (#[trigger] c[j]).score <= c[best_index(c)].score by {
            if j < head.len() {
                assert(c[j] == head[j]);
            }
        }
        assert forall|j: int| 0 <= j < best_index(c) implies (#[trigger] c[j]).score < c[best_index(c)].score by {
            assert(c[j] == head[j]);
        }
    }
}

/// Survivors are candidates of the list, none of them overlaps the winner
/// too much, and there are no more of them than candidates.
pub proof fn lemma_survivors(winner: BoxView, c: Seq<DetectionView>, threshold: int)
    ensures
        survivors(winner, c, threshold).len() <= c.len(),
        forall|j: int|
            0 <= j < survivors(winner, c, threshold).len() ==> {
                let s = #[trigger] survivors(winner, c, threshold)[j];
                c.contains(s) && !iou_at_least(winner, s.bbox, threshold)
            },
    decreases c.len(),
{
    if c.len() > 0 {
        let head = c.drop_last();
        lemma_survivors(winner, head, threshold);
        let before = survivors(winner, head, threshold);
        let all = survivors(winner, c, threshold);
        assert forall|j: int| 0 <= j < all.len() implies {
            let s = #[trigger] all[j];
            c.contains(s) && !iou_at_least(winner, s.bbox, threshold)
        } by {
            if j < before.len() {
                assert(all[j] == before[j]);
                let w = choose|w: int| 0 <= w < head.len() && head[w] == before[j];
                assert(c[w] == all[j]);
            } else {
                assert(all[j] == c[c.len() - 1]);
            }
        }
    }
}

/// What suppression keeps is part of what it was given.
pub proof fn lemma_suppressed_members(c: Seq<DetectionView>, threshold: int)
    ensures
        suppressed(c, threshold).len() <= c.len(),
        c.len() > 0 ==> suppressed(c, threshold).len() > 0,
        forall|j: int| 0 <= j < suppressed(c, threshold).len() ==> c.contains(#[trigger] suppressed(c, threshold)[j]),
    decreases c.len(),
{
    if c.len() > 0 {
        lemma_best_index(c);
        let k = best_index(c);
        let rest = c.remove(k);
        let left = survivors(c[k].bbox, rest, threshold);
        lemma_survivors(c[k].bbox, rest, threshold);
        lemma_suppressed_members(left, threshold);
        let tail = suppressed(left, threshold);
        let all = suppressed(c, threshold);
        assert(all =~= seq![c[k]] + tail);
        assert forall|j: int| 0 <= j < all.len() implies c.contains(#[trigger] all[j]) by {
            if j == 0 {
                assert(all[0] == c[k]);
            } else {
                assert(all[j] == tail[j - 1]);
                assert(left.contains(tail[j - 1]));
                let w = choose|w: int| 0 <= w < left.len() && left[w] == tail[j - 1];
                assert(rest.contains(left[w]));
                let v = choose|v: int| 0 <= v < rest.len() && rest[v] == left[w];
                if v < k {
                    assert(c[v] == all[j]);
                } else {
                    assert(c[v + 1] == all[j]);
                }
            }
        }
    }
}

/// No two detections that suppression keeps overlap as much as the
/// threshold, in either order.
pub proof fn lemma_suppressed_pairwise_below(c: Seq<DetectionView>, threshold: int)
    ensures
        forall|i: int, j: int|
            0 <= i < suppressed(c, threshold).len() && 0 <= j < suppressed(c, threshold).len() && i != j
                ==> !iou_at_least(
                (#[trigger] suppressed(c, threshold)[i]).bbox,
                (#[trigger] suppressed(c, threshold)[j]).bbox,
                threshold,
            ),
    decreases c.len(),
{
    if c.len() > 0 {
        lemma_best_index(c);
        let k = best_index(c);
        let rest = c.remove(k);
        let left = survivors(c[k].bbox, rest, threshold);
        lemma_survivors(c[k].bbox, rest, threshold);
        lemma_suppressed_members(left, threshold);
        lemma_suppressed_pairwise_below(left, threshold);
        let tail = suppressed(left, threshold);
        let all = suppressed(c, threshold);
        assert(all =~= seq![c[k]] + tail);
        assert forall|i: int, j: int| 0 <= i < all.len() && 0 <= j < all.len() && i != j implies !iou_at_least(
            (#[trigger] all[i]).bbox,
            (#[trigger] all[j]).bbox,
            threshold,
        ) by {
            if i == 0 {
                assert(all[j] == tail[j - 1]);
                assert(left.contains(tail[j - 1]));
            } else if j == 0 {
                assert(all[i] == tail[i - 1]);
                assert(left.contains(tail[i - 1]));
                lemma_iou_symmetric(all[i].bbox, all[0].bbox, threshold);
            } else {
                assert(all[i] == tail[i - 1]);
                assert(all[j] == tail[j - 1]);
            }
        }
    }
}

/// Suppression keeps detections in falling order of score.
pub proof fn lemma_suppressed_scores_fall(c: Seq<DetectionView>, threshold: int)
    ensures
        forall|i: int, j: int|
            0 <= i < j < suppressed(c, threshold).len() ==> (#[trigger] suppressed(c, threshold)[i]).score >= (
            #[trigger] suppressed(c, threshold)[j]).score,
    decreases c.len(),
{
    if c.len() > 0 {
        lemma_best_index(c);
        let k = best_index(c);
        let rest = c.remove(k);
        let left = survivors(c[k].bbox, rest, threshold);
        lemma_survivors(c[k].bbox, rest, threshold);
        lemma_suppressed_scores_fall(left, threshold);
        lemma_suppressed_members(c, threshold);
        let tail = suppressed(left, threshold);
        let all = suppressed(c, threshold);
        assert(all =~= seq![c[k]] + tail);
        assert forall|i: int, j: int| 0 <= i < j < all.len() implies (#[trigger] all[i]).score >= (
        #[trigger] all[j]).score by {
            if i == 0 {
                assert(c.contains(all[j]));
            } else {
                assert(all[i] == tail[i - 1]);
                assert(all[j] == tail[j - 1]);
            }
        }
    }
}

/// Whether `kept` holds the detection itself, or one of a score at least as
/// high whose box overlaps it as much as the threshold.
pub open spec fn accounted_for(d: DetectionView, kept: Seq<DetectionView>, threshold: int) -> bool {
    exists|j: int|
        0 <= j < kept.len() && (#[trigger] kept[j]).score >= d.score && (kept[j] == d || iou_at_least(
            kept[j].bbox,
            d.bbox,
            threshold,
        ))
}

/// A candidate that does not overlap the winner too much is a survivor.
pub proof fn lemma_survivors_complete(winner: BoxView, c: Seq<DetectionView>, threshold: int)
    ensures
        forall|i: int|
            0 <= i < c.len() && !iou_at_least(winner, (#[trigger] c[i]).bbox, threshold) ==> survivors(
                winner,
                c,
                threshold,
            ).contains(c[i]),
    decreases c.len(),
{
    if c.len() > 0 {
        let head = c.drop_last();
        lemma_survivors_complete(winner, head, threshold);
        let before = survivors(winner, head, threshold);
        let all = survivors(winner, c, threshold);
        assert forall|i: int| 0 <= i < c.len() && !iou_at_least(winner, (#[trigger] c[i]).bbox, threshold) implies all.contains(
            c[i],
        ) by {
            if i < head.len() {
                assert(head[i] == c[i]);
                assert(before.contains(head[i]));
                let w = choose|w: int| 0 <= w < before.len() && before[w] == c[i];
                assert(all[w] == c[i]);
            } else {
                assert(all[before.len() as int] == c[i]);
            }
        }
    }
}

/// Suppression drops a candidate only for a kept detection of a score at
/// least as high that overlaps it as much as the threshold.
pub proof fn lemma_suppressed_accounts_for_all(c: Seq<DetectionView>, threshold: int)
    ensures
        forall|i: int| 0 <= i < c.len() ==> accounted_for(#[trigger] c[i], suppressed(c, threshold), threshold),
    decreases c.len(),
{
    if c.len() > 0 {
        lemma_best_index(c);
        let k = best_index(c);
        let rest = c.remove(k);
        let left = survivors(c[k].bbox, rest, threshold);
        lemma_survivors(c[k].bbox, rest, threshold);
        lemma_survivors_complete(c[k].bbox, rest, threshold);
        lemma_suppressed_accounts_for_all(left, threshold);
        let tail = suppressed(left, threshold);
        let all = suppressed(c, threshold);
        assert(all =~= seq![c[k]] + tail);
        assert forall|i: int| 0 <= i < c.len() implies accounted_for(#[trigger] c[i], all, threshold) by {
            let d = c[i];
            if i == k {
                assert(all[0] == d);
            } else if iou_at_least(c[k].bbox, d.bbox, threshold) {
                assert(all[0].score >= d.score);
            } else {
                let at = if i < k { i } else { i - 1 };
                assert(rest[at] == d);
                assert(left.contains(rest[at]));
                let w = choose|w: int| 0 <= w < left.len() && left[w] == d;
                assert(accounted_for(left[w], tail, threshold));
                let j = choose|j: int|
                    0 <= j < tail.len() && (#[trigger] tail[j]).score >= d.score && (tail[j] == d || iou_at_least(
                        tail[j].bbox,
                        d.bbox,
                        threshold,
                    ));
                assert(all[j + 1] == tail[j]);
            }
        }
    }
}

/// Position of the first candidate of highest score, where there is a
/// candidate.
pub fn best_candidate(candidates: &Vec<Detection>) -> (best: Option<usize>)
    ensures
        best.is_some() <==> candidates@.len() > 0,
        best.is_some() ==> best.unwrap() == best_index(detection_views(candidates@)),
        best.is_some() ==> best.unwrap() < candidates@.len(),
{
    let n: usize = candidates.len();
    if n == 0 {
        return None;
    }
    let ghost views = detection_views(candidates@);
    let mut k: usize = 0;
    let mut i: usize = 1;
    proof {
        assert(views.take(1).len() == 1);
    }
    while i < n
        invariant
            1 <= i <= n,
            n == candidates@.len(),
            views == detection_views(candidates@),
            k < i,
            k == best_index(views.take(i as int)),
        decreases n - i,
    {
        proof {
            let next = views.take(i + 1);
            assert(next.drop_last() =~= views.take(i as int));
            assert(next.last() == views[i as int]);
            assert(next[k as int] == views[k as int]);
        }
        if candidates[i].score > candidates[k].score {
            k = i;
        }
        i += 1;
    }
    proof {
        assert(views.take(n as int) =~= views);
    }
    Some(k)
}

/// The candidates whose overlap with the winner's box stays below the
/// threshold, in their order. The boxes must lie within the coordinate
/// limit.
pub fn retain_below(winner: &BoundingBox, rest: &Vec<Detection>, threshold: u32) -> (kept: Vec<Detection>)
    requires
        winner.wf(),
        forall|j: int| 0 <= j < rest@.len() ==> (#[trigger] rest@[j]).bbox.wf(),
    ensures
        detection_views(kept@) == survivors(winner@, detection_views(rest@), threshold as int),
        forall|j: int| 0 <= j < kept@.len() ==> (#[trigger] kept@[j]).bbox.wf(),
{
    let ghost views = detection_views(rest@);
    let n: usize = rest.len();
    let mut kept: Vec<Detection> = Vec::new();
    let mut i: usize = 0;
    proof {
        assert(detection_views(kept@) =~= survivors(winner@, views.take(0), threshold as int));
    }
    while i < n
        invariant
            i <= n,
            n == rest@.len(),
            winner.wf(),
            views == detection_views(rest@),
            forall|j: int| 0 <= j < rest@.len() ==> (#[trigger] rest@[j]).bbox.wf(),
            detection_views(kept@) == survivors(winner@, views.take(i as int), threshold as int),
            forall|j: int| 0 <= j < kept@.len() ==> (#[trigger] kept@[j]).bbox.wf(),
        decreases n - i,
    {
        proof {
            let next = views.take(i + 1);
            assert(next.drop_last() =~= views.take(i as int));
            assert(next.last() == views[i as int]);
        }
        if !winner.iou_at_least(&rest[i].bbox, threshold) {
            let copy = rest[i].clone();
            let ghost before = kept@;
            kept.push(copy);
            proof {
                assert(detection_views(kept@) =~= detection_views(before).push(copy@));
            }
        }
        i += 1;
    }
    proof {
        assert(views.take(n as int) =~= views);
    }
    kept
}

/// Greedy non-maximum suppression of a list of candidates, in any order.
/// An empty list gives an empty list. The boxes must lie within the
/// coordinate limit, as every decoded box does.
pub fn suppress(candidates: Vec<Detection>, threshold: u32) -> (kept: Vec<Detection>)
    requires
        forall|j: int| 0 <= j < candidates@.len() ==> (#[trigger] candidates@[j]).bbox.wf(),
    ensures
        detection_views(kept@) == suppressed(detection_views(candidates@), threshold as int),
        forall|j: int| 0 <= j < kept@.len() ==> (#[trigger] kept@[j]).bbox.wf(),
{
    let ghost target = suppressed(detection_views(candidates@), threshold as int);
    let mut remaining: Vec<Detection> = candidates;
    let mut kept: Vec<Detection> = Vec::new();
    proof {
        assert(detection_views(kept@) + target =~= target);
    }
    while remaining.len() > 0
        invariant
            forall|j: int| 0 <= j < remaining@.len() ==> (#[trigger] remaining@[j]).bbox.wf(),
            forall|j: int| 0 <= j < kept@.len() ==> (#[trigger] kept@[j]).bbox.wf(),
            detection_views(kept@) + suppressed(detection_views(remaining@), threshold as int) == target,
        decreases remaining@.len(),
    {
        let ghost round = detection_views(remaining@);
        let ghost kept_before = kept@;
        let best = best_candidate(&remaining);
        let k: usize = best.unwrap();
        let winner = remaining.remove(k);
        proof {
            assert(detection_views(remaining@) =~= round.remove(k as int));
            assert(winner@ == round[k as int]);
            lemma_survivors(winner.bbox@, round.remove(k as int), threshold as int);
        }
        let next = retain_below(&winner.bbox, &remaining, threshold);
        kept.push(winner);
        proof {
            let tail = suppressed(detection_views(next@), threshold as int);
            assert(suppressed(round, threshold as int) =~= seq![round[k as int]] + tail);
            assert(detection_views(kept@) =~= detection_views(kept_before).push(round[k as int]));
            assert(detection_views(kept@) + tail =~= detection_views(kept_before) + suppressed(
                round,
                threshold as int,
            ));
            assert(detection_views(next@).len() == next@.len());
        }
        remaining = next;
    }
    proof {
        assert(detection_views(kept@) + suppressed(detection_views(remaining@), threshold as int) =~= detection_views(
            kept@,
        ));
    }
    kept
}

} // verus!
