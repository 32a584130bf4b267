use scripguessr::scriptures::{Canon, Difficulty, Reference};
use scripguessr::stats::{percent, FinishedGame, FinishedRound, ReviewItem, Stats, STORAGE_VERSION};
use scripguessr::study_sets::StudyPassage;

fn round(book: &str, score: u32) -> FinishedRound {
    FinishedRound {
        answer_book: book.to_string(),
        score,
        possible_score: 1000,
    }
}

#[test]
fn records_totals_and_best_score() {
    let mut stats = Stats::default();

    let new_best = stats.record_game(FinishedGame {
        difficulty: Difficulty::Normal,
        score: 1600,
        possible_score: 2000,
        rounds: vec![round("Alma", 900), round("Mosiah", 700)],
    });

    assert!(new_best);
    assert_eq!(stats.games_played, 1);
    assert_eq!(stats.rounds_played, 2);
    assert_eq!(stats.average_percent(), Some(80));
    assert_eq!(stats.best_score.unwrap().score_percent(), 80);
    assert_eq!(stats.best_by_difficulty.get(&Difficulty::Normal).unwrap().score, 1600);
}

#[test]
fn lower_score_is_not_a_new_best() {
    let mut stats = Stats::default();
    stats.record_game(FinishedGame {
        difficulty: Difficulty::Normal,
        score: 900,
        possible_score: 1000,
        rounds: vec![round("Alma", 900)],
    });

    let new_best = stats.record_game(FinishedGame {
        difficulty: Difficulty::Hard,
        score: 700,
        possible_score: 1000,
        rounds: vec![round("Alma", 700)],
    });

    assert!(!new_best);
    assert_eq!(stats.best_score.unwrap().score, 900);
}

#[test]
fn weakest_books_are_sorted_by_average_percent() {
    let mut stats = Stats::default();
    stats.record_game(FinishedGame {
        difficulty: Difficulty::Normal,
        score: 1200,
        possible_score: 3000,
        rounds: vec![round("Alma", 800), round("Mosiah", 300), round("Jacob", 100)],
    });

    let weakest = stats.weakest_books(2);

    assert_eq!(weakest[0].0, "Jacob");
    assert_eq!(weakest[1].0, "Mosiah");
}

#[test]
fn review_items_toggle_by_reference() {
    let mut stats = Stats::default();
    let item = ReviewItem {
        passage: StudyPassage::single(&Reference {
            canon: Canon::BookOfMormon,
            book: "Alma".to_string(),
            chapter: 32,
            verse: 21,
        }),
        text: "And now as I said concerning faith".to_string(),
        score: 612,
    };

    assert!(stats.toggle_review_item(item.clone()));
    assert!(stats.is_marked_for_review(&item.passage()));
    assert_eq!(stats.review_items.len(), 1);

    assert!(!stats.toggle_review_item(item.clone()));
    assert!(!stats.is_marked_for_review(&item.passage()));
    assert!(stats.review_items.is_empty());
}

#[test]
fn review_items_can_be_removed_by_reference() {
    let mut stats = Stats::default();
    let reference = Reference {
        canon: Canon::BookOfMormon,
        book: "Mosiah".to_string(),
        chapter: 2,
        verse: 17,
    };
    stats.review_items.push(ReviewItem {
        passage: StudyPassage::single(&reference),
        text: "When ye are in the service of your fellow beings".to_string(),
        score: 734,
    });

    assert!(stats.remove_review_item(&StudyPassage::single(&reference)));
    assert!(stats.review_items.is_empty());
    assert!(!stats.remove_review_item(&StudyPassage::single(&reference)));
}

#[test]
fn migrates_legacy_review_references_to_passages() {
    let json = r#"{
        "games_played":1,
        "rounds_played":1,
        "total_score":700,
        "total_possible_score":1000,
        "best_score":null,
        "best_by_difficulty":{},
        "books":{},
        "review_items":[{
            "reference":{"canon":"BookOfMormon","book":"Alma","chapter":32,"verse":21},
            "text":"Faith is not to have a perfect knowledge",
            "score":700
        }]
    }"#;
    let value: serde_json::Value = serde_json::from_str(json).unwrap();
    let legacy = &value["review_items"][0];
    let legacy_reference = &legacy["reference"];
    assert_eq!(legacy_reference["canon"], "BookOfMormon");
    let reference = Reference {
        canon: Canon::BookOfMormon,
        book: legacy_reference["book"].as_str().unwrap().to_string(),
        chapter: legacy_reference["chapter"].as_u64().unwrap() as u16,
        verse: legacy_reference["verse"].as_u64().unwrap() as u16,
    };

    let item = ReviewItem::from_legacy(
        &reference,
        None,
        legacy["text"].as_str().unwrap().to_string(),
        legacy["score"].as_u64().unwrap() as u32,
    );

    assert_eq!(item.passage.label(), "Alma 32:21");
    assert_eq!(item.text, "Faith is not to have a perfect knowledge");
    assert_eq!(item.score, 700);
}

#[test]
fn toggling_twice_restores_the_review_list() {
    let mut stats = Stats::default();
    let first = ReviewItem {
        passage: StudyPassage::single(&Reference {
            canon: Canon::BookOfMormon,
            book: "Ether".to_string(),
            chapter: 12,
            verse: 27,
        }),
        text: "weakness".to_string(),
        score: 10,
    };
    let second = ReviewItem {
        passage: StudyPassage::single(&Reference {
            canon: Canon::BookOfMormon,
            book: "Moroni".to_string(),
            chapter: 10,
            verse: 4,
        }),
        text: "ask".to_string(),
        score: 20,
    };
    stats.toggle_review_item(first.clone());
    let before = stats.clone();
    assert!(stats.toggle_review_item(second.clone()));
    assert!(!stats.toggle_review_item(second));
    assert_eq!(stats, before);
}

#[test]
fn best_score_never_drops() {
    let mut stats = Stats::default();
    for (score, possible) in [(500u32, 1000u32), (900, 1000), (100, 1000), (850, 1000)] {
        stats.record_game(FinishedGame {
            difficulty: Difficulty::Easy,
            score,
            possible_score: possible,
            rounds: vec![round("Alma", score)],
        });
    }
    assert_eq!(stats.best_score.unwrap().score, 900);
    assert_eq!(stats.best_by_difficulty.get(&Difficulty::Easy).unwrap().score, 900);
    assert!(stats.best_by_difficulty.get(&Difficulty::Hard).is_none());
    assert_eq!(stats.books.len(), 1);
    let (name, book) = stats.books.entry(0);
    assert_eq!(name, "Alma");
    assert_eq!(book.rounds_played, 4);
    assert_eq!(book.total_score, 2350);
    assert_eq!(book.average_percent(), Some(59));
}

#[test]
fn percentages_round_half_up_and_need_a_possible_score() {
    assert_eq!(percent(1, 3), Some(33));
    assert_eq!(percent(2, 3), Some(67));
    assert_eq!(percent(1, 2), Some(50));
    assert_eq!(percent(1, 8), Some(13));
    assert_eq!(percent(0, 0), None);
    assert_eq!(STORAGE_VERSION, 2);
}

#[test]
fn recording_is_refused_when_a_total_would_overflow() {
    let mut stats = Stats::default();
    stats.total_score = u32::MAX;
    let game = FinishedGame {
        difficulty: Difficulty::Normal,
        score: 1,
        possible_score: 1000,
        rounds: vec![round("Alma", 1)],
    };
    assert!(!stats.can_record(&game));
    let fresh = Stats::default();
    assert!(fresh.can_record(&game));
}

#[test]
fn stored_stats_are_taken_only_at_the_current_version() {
    use_current_version();
}

fn use_current_version() {
    let mut stats = Stats::default();
    stats.games_played = 3;
    assert_eq!(scripguessr::stats::current_stored_stats(STORAGE_VERSION, stats.clone()), Some(stats.clone()));
    assert_eq!(scripguessr::stats::current_stored_stats(1, stats), None);
}
