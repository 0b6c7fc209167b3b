//! Which enemy a tower shoots at. The tower's targeting mode turns each
//! enemy in range into a score, and the first enemy with the highest score
//! is the target. Distances, health and speeds arrive as integer keys that
//! order the same way as the measured values.

use vstd::prelude::*;
use crate::tower::TargetingPriority;

verus! {

/// The score of an enemy under a targeting mode: furthest along the path,
/// closest, lowest health, highest health, or fastest.
pub open spec fn spec_target_score(
    priority: TargetingPriority,
    path_index: usize,
    distance_key: i32,
    health_key: i32,
    speed_key: i32,
) -> int {
    match priority {
        TargetingPriority::First => path_index as int,
        TargetingPriority::Closest => -(distance_key as int),
        TargetingPriority::LowestHP => -(health_key as int),
        TargetingPriority::HighestHP => health_key as int,
        TargetingPriority::Fastest => speed_key as int,
    }
}

pub fn target_score(
    priority: TargetingPriority,
    path_index: usize,
    distance_key: i32,
    health_key: i32,
    speed_key: i32,
) -> (score: i128)
    ensures
        score == spec_target_score(priority, path_index, distance_key, health_key, speed_key),
{
    match priority {
        TargetingPriority::First => path_index as i128,
        TargetingPriority::Closest => -(distance_key as i128),
        TargetingPriority::LowestHP => -(health_key as i128),
        TargetingPriority::HighestHP => health_key as i128,
        TargetingPriority::Fastest => speed_key as i128,
    }
}

/// `i` is the first position holding the highest score.
pub open spec fn is_first_best(scores: Seq<(u64, i128)>, i: int) -> bool {
    &&& 0 <= i < scores.len()
    &&& forall|j: int| 0 <= j < scores.len() ==> (#[trigger] scores[j]).1 <= scores[i].1
    &&& forall|j: int| 0 <= j < i ==> (#[trigger] scores[j]).1 < scores[i].1
}

/// The target among scored candidates `(entity, score)`: the first one with
/// the highest score; none when there is no candidate.
pub fn best_target(candidates: &[(u64, i128)]) -> (target: Option<u64>)
    ensures
        candidates@.len() == 0 ==> target is None,
        candidates@.len() > 0 ==> exists|i: int|
            is_first_best(candidates@, i) && target == Some(candidates@[i].0),
{
    if candidates.len() == 0 {
        return None;
    }
    let mut best: usize = 0;
    let mut k: usize = 1;
    while k < candidates.len()
        invariant
            0 <= best < k <= candidates@.len(),
            forall|j: int| 0 <= j < k ==> (#[trigger] candidates@[j]).1 <= candidates@[best as int].1,
            forall|j: int| 0 <= j < best ==> (#[trigger] candidates@[j]).1 < candidates@[best as int].1,
        decreases candidates@.len() - k,
    {
        if candidates[k].1 > candidates[best].1 {
            best = k;
        }
        k = k + 1;
    }
    assert(is_first_best(candidates@, best as int));
    Some(candidates[best].0)
}

/// The first best position is unique: the target is well defined.
pub proof fn lemma_first_best_unique(scores: Seq<(u64, i128)>, i: int, j: int)
    requires
        is_first_best(scores, i),
        is_first_best(scores, j),
    ensures
        i == j,
{
    if i < j {
        assert(scores[i].1 < scores[j].1);
    } else if j < i {
        assert(scores[j].1 < scores[i].1);
    }
}

} // verus!
