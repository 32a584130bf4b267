use scripguessr::scoring::{Score, MAX_SCORE, POINTS_LOST_PER_CHAPTER};

#[test]
fn exact_guess_gets_max_score() {
    assert_eq!(
        Score::from_chapter_distance(0),
        Score {
            points: 1000,
            chapter_distance: 0,
        }
    );
}

#[test]
fn nearby_guess_decays_by_chapter_distance() {
    assert_eq!(Score::from_chapter_distance(1).points, 978);
    assert_eq!(Score::from_chapter_distance(3).points, 934);
}

#[test]
fn far_guess_bottoms_out_at_zero() {
    assert_eq!(Score::from_chapter_distance(200).points, 0);
}

#[test]
fn distance_label_uses_singular_and_plural_text() {
    assert_eq!(Score::from_chapter_distance(0).distance_label(), "Exact chapter");
    assert_eq!(Score::from_chapter_distance(1).distance_label(), "Off by 1 chapter");
    assert_eq!(Score::from_chapter_distance(2).distance_label(), "Off by 2 chapters");
}

#[test]
fn points_never_rise_with_distance() {
    let mut previous = Score::from_chapter_distance(0).points;
    for distance in 1..100u32 {
        let points = Score::from_chapter_distance(distance).points;
        assert!(points <= previous);
        previous = points;
    }
}

#[test]
fn score_reaches_zero_exactly_at_the_cutoff() {
    let cutoff = MAX_SCORE / POINTS_LOST_PER_CHAPTER;
    assert!(Score::from_chapter_distance(cutoff).points <= POINTS_LOST_PER_CHAPTER);
    assert_eq!(Score::from_chapter_distance(46).points, 0);
    assert_eq!(Score::from_chapter_distance(45).points, 10);
    assert_eq!(Score::from_chapter_distance(u32::MAX).points, 0);
    assert_eq!(Score::from_chapter_distance(u32::MAX).distance_label(), "Off by 4294967295 chapters");
}
