use scripguessr::scriptures::{BookScope, Canon, CanonScope, GameMode, GameScope, Reference};
use scripguessr::study_sets::{
    built_in_study_sets, drafted_passage, scope_for_passages, PromptPolicy, StudyGuessScope, StudyPassage, StudySet,
};

fn passage(canon: Canon, book: &str, chapter: u16, verses: Vec<u16>) -> StudyPassage {
    StudyPassage { canon, book: book.to_string(), chapter, verses }
}

#[test]
fn labels_discontinuous_verse_ranges() {
    let passage = StudyPassage {
        canon: Canon::DoctrineAndCovenants,
        book: "D&C".to_string(),
        chapter: 121,
        verses: vec![36, 41, 42],
    };
    assert_eq!(passage.label(), "D&C 121:36, 41-42");
}

#[test]
fn book_of_mormon_mastery_uses_the_full_canon_for_guesses() {
    let set = built_in_study_sets()
        .into_iter()
        .find(|set| set.id == "doctrinal-mastery-book-of-mormon")
        .unwrap();
    let scope = set.resolved_guess_scope();

    assert!(scope.includes_book(Canon::BookOfMormon, "Jacob"));
    assert!(!scope.includes_book(Canon::NewTestament, "Matthew"));
}

#[test]
fn books_in_set_remains_available_for_focused_custom_sets() {
    let set = StudySet {
        id: "alma".to_string(),
        name: "Alma".to_string(),
        passages: vec![StudyPassage {
            canon: Canon::BookOfMormon,
            book: "Alma".to_string(),
            chapter: 32,
            verses: vec![21],
        }],
        guess_scope: StudyGuessScope::BooksInSet,
        prompt_policy: PromptPolicy::Automatic,
    };
    let scope = set.resolved_guess_scope();

    assert!(scope.includes_book(Canon::BookOfMormon, "Alma"));
    assert!(!scope.includes_book(Canon::BookOfMormon, "Jacob"));
}

#[test]
fn labels_sort_and_merge_verses() {
    assert_eq!(passage(Canon::BookOfMormon, "Alma", 7, vec![13, 11, 12, 12]).label(), "Alma 7:11-13");
    assert_eq!(passage(Canon::BookOfMormon, "Moroni", 7, vec![48]).label(), "Moroni 7:48");
    assert_eq!(passage(Canon::BookOfMormon, "Ether", 12, vec![4, 6, 27, 28, 29]).label(), "Ether 12:4, 6, 27-29");
}

#[test]
fn every_built_in_set_guesses_in_a_scope_that_holds_its_passages() {
    for set in built_in_study_sets() {
        assert!(set.guess_scope_covers_passages(), "{}", set.name);
        assert!(!set.passages.is_empty());
    }
}

#[test]
fn books_in_set_lists_books_in_first_seen_order_per_canon() {
    let passages = vec![
        passage(Canon::BookOfMormon, "Moroni", 10, vec![4]),
        passage(Canon::OldTestament, "Genesis", 1, vec![1]),
        passage(Canon::BookOfMormon, "Alma", 32, vec![21]),
        passage(Canon::BookOfMormon, "Moroni", 7, vec![45]),
    ];
    let scope = scope_for_passages(&passages);
    assert_eq!(
        scope,
        GameScope {
            canons: vec![
                CanonScope {
                    canon: Canon::OldTestament,
                    books: BookScope::Selected(vec!["Genesis".to_string()]),
                },
                CanonScope {
                    canon: Canon::BookOfMormon,
                    books: BookScope::Selected(vec!["Moroni".to_string(), "Alma".to_string()]),
                },
            ],
        }
    );
}

#[test]
fn all_standard_works_scope_resolves_to_the_preset() {
    let set = StudySet {
        id: "x".to_string(),
        name: "x".to_string(),
        passages: vec![passage(Canon::BookOfMormon, "Alma", 32, vec![21])],
        guess_scope: StudyGuessScope::AllStandardWorks,
        prompt_policy: PromptPolicy::WholePassage,
    };
    assert_eq!(set.resolved_guess_scope(), GameMode::AllStandardWorks.scope());
    let full = StudySet { guess_scope: StudyGuessScope::FullCanons, ..set };
    assert_eq!(
        full.resolved_guess_scope(),
        GameScope { canons: vec![CanonScope { canon: Canon::BookOfMormon, books: BookScope::All }] }
    );
}

#[test]
fn prompt_policies_choose_between_whole_passages_and_single_verses() {
    let short = passage(Canon::BookOfMormon, "Alma", 7, vec![11, 12, 13]);
    let long = passage(Canon::BookOfMormon, "Moroni", 7, vec![45, 46, 47, 48]);
    assert!(PromptPolicy::Automatic.shows_whole_passage(&short));
    assert!(!PromptPolicy::Automatic.shows_whole_passage(&long));
    assert!(!PromptPolicy::SingleVerse.shows_whole_passage(&short));
    assert!(PromptPolicy::WholePassage.shows_whole_passage(&long));
    assert_eq!(PromptPolicy::Automatic.behavior_label(&long), "Random verse");
    assert_eq!(PromptPolicy::default(), PromptPolicy::Automatic);
}

#[test]
fn single_passages_name_one_verse() {
    let single = StudyPassage::single(&Reference {
        canon: Canon::BookOfMormon,
        book: "Alma".to_string(),
        chapter: 32,
        verse: 21,
    });
    assert_eq!(single.verses, vec![21]);
    assert!(single.contains_verse(21));
    assert!(!single.contains_verse(22));
    assert_eq!(single.first_reference().unwrap().verse, 21);
    assert!(passage(Canon::BookOfMormon, "Alma", 32, vec![]).first_reference().is_none());
}

#[test]
fn built_in_sets_hold_their_listed_passages_once_each() {
    let sets = built_in_study_sets();
    assert_eq!(sets.len(), 5);
    let names: Vec<&str> = sets.iter().map(|set| set.name.as_str()).collect();
    assert_eq!(
        names,
        vec![
            "All Doctrinal Mastery",
            "Old Testament Doctrinal Mastery",
            "New Testament Doctrinal Mastery",
            "Book of Mormon Doctrinal Mastery",
            "Doctrine and Covenants Doctrinal Mastery",
        ]
    );
    for set in &sets[1..] {
        assert_eq!(set.passages.len(), 24);
    }
    assert_eq!(sets[0].passages.len(), 96);
    assert_eq!(sets[3].passages[12], passage(Canon::BookOfMormon, "Alma", 7, vec![11, 12, 13]));
    assert_eq!(sets[4].passages[20], passage(Canon::DoctrineAndCovenants, "D&C", 121, vec![36, 41, 42]));
    assert_eq!(sets[1].passages[0], passage(Canon::PearlOfGreatPrice, "Moses", 1, vec![39]));
    for set in &sets {
        assert_eq!(set.prompt_policy, PromptPolicy::WholePassage);
        assert!(set.guess_scope_covers_passages());
        for (i, a) in set.passages.iter().enumerate() {
            for b in &set.passages[i + 1..] {
                assert_ne!(a, b);
            }
        }
    }
}

#[test]
fn drafted_passages_need_a_book_a_listed_chapter_and_a_short_run_within_the_chapter() {
    let chapters = [1u16, 2, 3];
    let made = drafted_passage(Canon::BookOfMormon, "Alma", &chapters, 2, 3, 5, 40).unwrap();
    assert_eq!(made, passage(Canon::BookOfMormon, "Alma", 2, vec![3, 4, 5]));
    assert!(drafted_passage(Canon::BookOfMormon, "", &chapters, 2, 3, 5, 40).is_none());
    assert!(drafted_passage(Canon::BookOfMormon, "Alma", &chapters, 4, 3, 5, 40).is_none());
    assert!(drafted_passage(Canon::BookOfMormon, "Alma", &chapters, 2, 0, 5, 40).is_none());
    assert!(drafted_passage(Canon::BookOfMormon, "Alma", &chapters, 2, 6, 5, 40).is_none());
    assert!(drafted_passage(Canon::BookOfMormon, "Alma", &chapters, 2, 3, 41, 40).is_none());
    assert!(drafted_passage(Canon::BookOfMormon, "Alma", &chapters, 2, 1, 201, 300).is_none());
    assert!(drafted_passage(Canon::BookOfMormon, "Alma", &chapters, 2, 1, 200, 300).is_some());
}
