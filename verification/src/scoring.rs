use vstd::prelude::*;

use crate::text::{decimal, u64_to_decimal};

verus! {

/// Points awarded for naming the exact chapter.
pub const MAX_SCORE: u32 = 1000;

/// Points lost for each chapter between the guess and the answer.
pub const POINTS_LOST_PER_CHAPTER: u32 = 22;

/// The points a guess earns at a given chapter distance: the maximum for an exact
/// chapter, then a linear decay that bottoms out at zero.
pub open spec fn points_for_distance(chapter_distance: u32) -> u32 {
    if chapter_distance == 0 {
        MAX_SCORE
    } else if chapter_distance * POINTS_LOST_PER_CHAPTER >= MAX_SCORE {
        0
    } else {
        (MAX_SCORE - chapter_distance * POINTS_LOST_PER_CHAPTER) as u32
    }
}

#[derive(Clone, Copy, Debug, PartialEq, Eq, Structural)]
pub struct Score {
    pub points: u32,
    pub chapter_distance: u32,
}

/// The text shown for a chapter distance.
pub open spec fn distance_label_spec(chapter_distance: u32) -> Seq<char> {
    if chapter_distance == 0 {
        "Exact chapter"@
    } else if chapter_distance == 1 {
        "Off by 1 chapter"@
    } else {
        "Off by "@ + decimal(chapter_distance as nat) + " chapters"@
    }
}

impl Score {
    pub fn from_chapter_distance(chapter_distance: u32) -> (score: Self)
        ensures
            score.chapter_distance == chapter_distance,
            score.points == points_for_distance(chapter_distance),
    {
        let points = if chapter_distance == 0 {
            MAX_SCORE
        } else {
            let lost = match chapter_distance.checked_mul(POINTS_LOST_PER_CHAPTER) {
                Some(lost) => lost,
                None => u32::MAX,
            };
            MAX_SCORE.saturating_sub(lost)
        };
        Self { points, chapter_distance }
    }

    pub fn distance_label(self) -> (label: String)
        ensures
            label@ == distance_label_spec(self.chapter_distance),
    {
        match self.chapter_distance {
            0 => String::from_str("Exact chapter"),
            1 => String::from_str("Off by 1 chapter"),
            distance => {
                let mut label = String::from_str("Off by ");
                let digits = u64_to_decimal(distance as u64);
                label.append(digits.as_str());
                label.append(" chapters");
                label
            },
        }
    }
}

/// A score never exceeds the maximum, and it never grows as the guess moves further away.
pub proof fn lemma_points_monotone(near: u32, far: u32)
    requires
        near <= far,
    ensures
        points_for_distance(far) <= points_for_distance(near),
        points_for_distance(near) <= MAX_SCORE,
{
    assert(near * POINTS_LOST_PER_CHAPTER <= far * POINTS_LOST_PER_CHAPTER) by (nonlinear_arith)
        requires near <= far;
}

} // verus!
