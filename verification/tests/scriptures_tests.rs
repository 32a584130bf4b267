use scripguessr::scriptures::{
    is_playable_verse, normalized_words, parse_reference, BookScope, Canon, CanonScope, Difficulty, FlatVerse,
    GameMode, GameScope, Reference, ScriptureLibrary, Scriptures,
};

const SAMPLE_DATA: &str = r#"{
  "verses": [
    { "reference": "1 Nephi 1:1", "text": "First verse" },
    { "reference": "1 Nephi 1:2", "text": "Second verse" },
    { "reference": "1 Nephi 2:1", "text": "Third verse" },
    { "reference": "2 Nephi 1:1", "text": "Fourth verse" },
    { "reference": "2 Nephi 2:1", "text": "Fifth verse" }
  ]
}"#;

fn flat_verses(json: &str) -> Vec<FlatVerse> {
    let value: serde_json::Value = serde_json::from_str(json).unwrap();
    value["verses"]
        .as_array()
        .unwrap()
        .iter()
        .map(|entry| FlatVerse {
            reference: entry["reference"].as_str().unwrap().to_string(),
            text: entry["text"].as_str().unwrap().to_string(),
        })
        .collect()
}

fn scriptures_from(canon: Canon, json: &str) -> Scriptures {
    Scriptures::from_flat_verses(canon, flat_verses(json))
}

fn sample_scriptures() -> Scriptures {
    scriptures_from(Canon::BookOfMormon, SAMPLE_DATA)
}

fn sample_library() -> ScriptureLibrary {
    let mut library = ScriptureLibrary::default();
    library.insert(Canon::BookOfMormon, sample_scriptures());
    library
}

fn reference(canon: Canon, book: &str, chapter: u16, verse: u16) -> Reference {
    Reference { canon, book: book.to_string(), chapter, verse }
}

#[test]
fn builds_books_and_chapters_in_scripture_order() {
    let scriptures = sample_scriptures();

    assert_eq!(scriptures.book_infos().len(), 2);
    assert_eq!(scriptures.book_infos()[0].name, "1 Nephi");
    assert_eq!(scriptures.book_infos()[0].chapters, vec![1, 2]);
    assert_eq!(scriptures.book_infos()[1].name, "2 Nephi");
    assert_eq!(scriptures.book_infos()[1].chapters, vec![1, 2]);
    assert_eq!(scriptures.all_verses().len(), 5);
}

#[test]
fn builds_filtered_verse_pools_by_difficulty() {
    let scriptures = scriptures_from(
        Canon::BookOfMormon,
        r#"{
          "verses": [
            { "reference": "1 Nephi 1:1", "text": "Amen." },
            { "reference": "1 Nephi 1:2", "text": "Nephi keeps a record about his family, their journey, and the mercies of the Lord." },
            { "reference": "1 Nephi 1:2", "text": "And it came to pass, yea, and now therefore it came to pass, yea, and now therefore it came to pass again." },
            { "reference": "1 Nephi 1:3", "text": "Nephi records the learning of his father, the mercy of God, and the purposes that shaped his journey through the wilderness with faith and patience." }
          ]
        }"#,
    );

    assert_eq!(scriptures.all_verses().len(), 4);
    assert_eq!(scriptures.verse_count_for_difficulty(Difficulty::Easy), 1);
    assert_eq!(scriptures.verse_count_for_difficulty(Difficulty::Normal), 1);
    assert_eq!(scriptures.verse_count_for_difficulty(Difficulty::Hard), 2);
}

#[test]
fn falls_back_to_all_verses_if_filter_removes_everything() {
    let scriptures = scriptures_from(
        Canon::BookOfMormon,
        r#"{
          "verses": [
            { "reference": "1 Nephi 1:1", "text": "Amen." },
            { "reference": "1 Nephi 1:2", "text": "Yea." }
          ]
        }"#,
    );

    assert_eq!(scriptures.verse_count_for_difficulty(Difficulty::Easy), 2);
    assert_eq!(scriptures.verse_count_for_difficulty(Difficulty::Normal), 2);
    assert_eq!(scriptures.verse_count_for_difficulty(Difficulty::Hard), 2);
}

#[test]
fn scores_across_book_boundaries_by_flattened_chapter_distance() {
    let library = sample_library();
    let answer = reference(Canon::BookOfMormon, "1 Nephi", 2, 1);

    let score = library.score(&GameMode::BookOfMormon.scope(), &answer, Canon::BookOfMormon, "2 Nephi", 1);

    assert_eq!(score.chapter_distance, 1);
    assert_eq!(score.points, 978);
}

#[test]
fn unknown_guess_scores_zero() {
    let library = sample_library();
    let answer = reference(Canon::BookOfMormon, "1 Nephi", 1, 1);

    assert_eq!(
        library
            .score(&GameMode::BookOfMormon.scope(), &answer, Canon::BookOfMormon, "Jacob", 1)
            .points,
        0
    );
}

#[test]
fn finds_verses_for_containing_chapter() {
    let scriptures = sample_scriptures();
    let reference = reference(Canon::BookOfMormon, "1 Nephi", 1, 1);

    let verses = scriptures.verses_for_chapter(&reference);

    assert_eq!(verses.len(), 2);
    assert_eq!(verses[0].reference.verse, 1);
    assert_eq!(verses[1].reference.verse, 2);
}

#[test]
fn library_scores_across_loaded_canons_in_mode_order() {
    let mut library = ScriptureLibrary::default();
    library.insert(
        Canon::OldTestament,
        scriptures_from(
            Canon::OldTestament,
            r#"{
              "verses": [
                { "reference": "Genesis 1:1", "text": "First verse" },
                { "reference": "Genesis 2:1", "text": "Second verse" }
              ]
            }"#,
        ),
    );
    library.insert(
        Canon::NewTestament,
        scriptures_from(
            Canon::NewTestament,
            r#"{
              "verses": [
                { "reference": "Matthew 1:1", "text": "Third verse" }
              ]
            }"#,
        ),
    );
    let answer = reference(Canon::OldTestament, "Genesis", 2, 1);

    let score = library.score(&GameMode::Bible.scope(), &answer, Canon::NewTestament, "Matthew", 1);

    assert_eq!(score.chapter_distance, 1);
    assert_eq!(score.points, 978);
}

#[test]
fn scoped_verses_are_filtered_to_selected_books() {
    let scriptures = sample_scriptures();
    let scope = BookScope::Selected(vec!["2 Nephi".to_string()]);

    let verses = scriptures.scoped_verses_for_difficulty(Difficulty::Hard, &scope);

    assert_eq!(verses.len(), 2);
    assert!(verses.iter().all(|verse| verse.reference.book == "2 Nephi"));
}

#[test]
fn scoped_scoring_skips_unselected_books() {
    let library = sample_library();
    let scope = GameScope {
        canons: vec![CanonScope {
            canon: Canon::BookOfMormon,
            books: BookScope::Selected(vec!["1 Nephi".to_string(), "2 Nephi".to_string()]),
        }],
    };
    let answer = reference(Canon::BookOfMormon, "1 Nephi", 2, 1);

    let score = library.score(&scope, &answer, Canon::BookOfMormon, "2 Nephi", 1);

    assert_eq!(score.chapter_distance, 1);
}

#[test]
fn parses_references_with_spaces_in_book_names() {
    let parsed = parse_reference(Canon::BookOfMormon, "Words of Mormon 1:7").unwrap();
    assert_eq!(parsed.book, "Words of Mormon");
    assert_eq!(parsed.chapter, 1);
    assert_eq!(parsed.verse, 7);
    assert!(parse_reference(Canon::BookOfMormon, "Alma 32").is_none());
    assert!(parse_reference(Canon::BookOfMormon, "Alma:3").is_none());
    assert!(parse_reference(Canon::BookOfMormon, "Alma x:3").is_none());
    assert!(parse_reference(Canon::BookOfMormon, "Alma 32:70000").is_none());
}

#[test]
fn unparsable_entries_are_skipped() {
    let scriptures = scriptures_from(
        Canon::BookOfMormon,
        r#"{
          "verses": [
            { "reference": "no reference here", "text": "Skipped" },
            { "reference": "Alma 1:1", "text": "Kept" }
          ]
        }"#,
    );
    assert_eq!(scriptures.all_verses().len(), 1);
    assert_eq!(scriptures.all_verses()[0].reference.book, "Alma");
}

#[test]
fn exact_guess_scores_the_maximum_in_a_loaded_scope() {
    let library = sample_library();
    let answer = reference(Canon::BookOfMormon, "2 Nephi", 2, 1);
    let score = library.score(&GameMode::BookOfMormon.scope(), &answer, Canon::BookOfMormon, "2 Nephi", 2);
    assert_eq!(score.chapter_distance, 0);
    assert_eq!(score.points, 1000);
}

#[test]
fn a_scope_reaching_an_unloaded_canon_first_places_nothing() {
    let library = sample_library();
    let answer = reference(Canon::BookOfMormon, "2 Nephi", 2, 1);
    let score = library.score(&GameMode::AllStandardWorks.scope(), &answer, Canon::BookOfMormon, "2 Nephi", 2);
    assert_eq!(score.chapter_distance, u32::MAX);
    assert_eq!(score.points, 0);
}

#[test]
fn scoring_is_symmetric() {
    let library = sample_library();
    let scope = GameMode::BookOfMormon.scope();
    let first = library.score(&scope, &reference(Canon::BookOfMormon, "1 Nephi", 1, 1), Canon::BookOfMormon, "2 Nephi", 2);
    let second = library.score(&scope, &reference(Canon::BookOfMormon, "2 Nephi", 2, 1), Canon::BookOfMormon, "1 Nephi", 1);
    assert_eq!(first, second);
    assert_eq!(first.chapter_distance, 3);
}

#[test]
fn passages_join_verse_texts() {
    let scriptures = sample_scriptures();
    assert!(scriptures.contains_passage("1 Nephi", 1, &vec![1, 2]));
    assert!(!scriptures.contains_passage("1 Nephi", 1, &vec![1, 3]));
    let verse = scriptures.passage("1 Nephi", 1, &vec![1, 2]).unwrap();
    assert_eq!(verse.text, "First verse Second verse");
    assert_eq!(verse.reference.verse, 1);
    assert!(scriptures.passage("1 Nephi", 1, &vec![]).is_none());
}

#[test]
fn normalized_words_lowercase_and_strip_punctuation() {
    assert_eq!(normalized_words("And it came to pass, yea!"), vec!["and", "it", "came", "to", "pass", "yea"]);
    assert!(!is_playable_verse("Amen.", Difficulty::Easy));
}

#[test]
fn chapter_counts_follow_the_selection() {
    let scriptures = sample_scriptures();
    assert_eq!(scriptures.chapter_count_for_scope(&BookScope::All), 4);
    assert_eq!(scriptures.chapter_count_for_scope(&BookScope::Selected(vec!["2 Nephi".to_string()])), 2);
    assert_eq!(
        scriptures.chapter_index_in_scope(&BookScope::Selected(vec!["2 Nephi".to_string()]), "2 Nephi", 2),
        Some(1)
    );
    assert_eq!(scriptures.chapter_index_in_scope(&BookScope::All, "Jacob", 1), None);
}

#[test]
fn playable_verses_never_outnumber_all_verses_in_a_selection() {
    let scriptures = sample_scriptures();
    let scopes = [
        BookScope::All,
        BookScope::Selected(vec!["2 Nephi".to_string()]),
        BookScope::Selected(vec!["Jacob".to_string()]),
    ];
    for scope in &scopes {
        let total = scriptures.scoped_total_verse_count(scope);
        for difficulty in [Difficulty::Easy, Difficulty::Normal, Difficulty::Hard] {
            assert!(scriptures.scoped_verse_count_for_difficulty(difficulty, scope) <= total);
        }
    }
    assert_eq!(scriptures.scoped_total_verse_count(&scopes[0]), 5);
    assert_eq!(scriptures.scoped_total_verse_count(&scopes[1]), 2);
}
