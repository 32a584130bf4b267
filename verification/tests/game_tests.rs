use scripguessr::api::{
    AdvanceGameResponse, CanonMetadata, ChapterVerse, GameSnapshotResponse, GuessReference, GuessResponse,
    MetadataResponse, NewGameRequest, NewGameResponse, RoundPrompt, SnapshotRound,
};
use scripguessr::display::{result_feedback, setup_subtitle};
use scripguessr::game::{custom_set_id, Game, GameSettings, GuessResult, GuessStep, Screen};
use scripguessr::scoring::{Score, MAX_SCORE};
use scripguessr::scriptures::{BookInfo, BookScope, Canon, CanonScope, Difficulty, GameMode, GameScope};
use scripguessr::study_sets::{PromptPolicy, StudyGuessScope, StudyPassage, StudySet};

fn book(name: &str, chapters: Vec<u16>) -> BookInfo {
    BookInfo { name: name.to_string(), chapters }
}

fn book_of_mormon_metadata() -> Vec<CanonMetadata> {
    vec![CanonMetadata {
        canon: Canon::BookOfMormon,
        books: vec![book("1 Nephi", vec![1, 2]), book("Enos", vec![1]), book("Alma", vec![7, 32])],
        playable_verse_count: 10,
        total_verse_count: 12,
    }]
}

fn response(scope: GameScope, rounds: usize) -> NewGameResponse {
    NewGameResponse {
        game_id: "game".to_string(),
        rounds: (0..rounds).map(|i| RoundPrompt { text: format!("Verse {i}") }).collect(),
        difficulty: Difficulty::Normal,
        scope,
        metadata: book_of_mormon_metadata(),
        playable_verse_count: 10,
        total_verse_count: 12,
        max_total_score: rounds as u32 * MAX_SCORE,
    }
}

fn guess_response(book_name: &str, chapter: u16, points: u32, distance: u32) -> GuessResponse {
    let answer = StudyPassage { canon: Canon::BookOfMormon, book: "Alma".to_string(), chapter: 32, verses: vec![21] };
    GuessResponse {
        answer: answer.clone(),
        source_passage: answer,
        guess: GuessReference { canon: Canon::BookOfMormon, book: book_name.to_string(), chapter },
        score: Score { points, chapter_distance: distance },
        chapter_verses: vec![ChapterVerse { verse: 21, text: "faith".to_string() }],
    }
}

#[test]
fn starting_a_study_game_preserves_setup_preferences() {
    let mut game = Game::new();
    let settings = game.settings.clone();
    let study_scope = GameMode::AllStandardWorks.scope();

    game.start_game_named(
        NewGameResponse {
            game_id: "study-game".to_string(),
            rounds: vec![RoundPrompt { text: "A verse".to_string() }],
            difficulty: Difficulty::Hard,
            scope: study_scope.clone(),
            metadata: Vec::new(),
            playable_verse_count: 1,
            total_verse_count: 1,
            max_total_score: MAX_SCORE,
        },
        Some("Study set".to_string()),
    );

    assert_eq!(game.settings, settings);
    assert_eq!(game.guess_scope(), &study_scope);
    assert_eq!(game.active_game.as_ref().unwrap().round_count, 1);

    game.change_settings();
    assert_eq!(game.settings, settings);
    assert!(game.active_game.is_none());
}

#[test]
fn new_clients_start_on_setup_with_defaults() {
    let game = Game::new();
    assert_eq!(game.screen, Screen::Setup);
    assert_eq!(game.settings, GameSettings::default());
    assert_eq!(game.settings.round_count, 5);
    assert_eq!(game.settings.scope, GameMode::BookOfMormon.scope());
    assert_eq!(game.active_step, GuessStep::Canon);
    assert!(!game.metadata_ready());
    assert_eq!(game.verse_count_for_difficulty(), 0);
}

#[test]
fn single_option_steps_are_taken_once_metadata_is_ready() {
    let mut game = Game::new();
    game.start_game(response(GameMode::BookOfMormon.scope(), 2));
    assert!(game.metadata_ready());
    assert_eq!(game.selected_canon, Some(Canon::BookOfMormon));
    assert_eq!(game.active_step, GuessStep::Book);

    let path = (game.selected_canon, game.selected_book.clone(), game.selected_chapter, game.active_step);
    game.clear_guess();
    game.clear_guess();
    assert_eq!(path, (game.selected_canon, game.selected_book.clone(), game.selected_chapter, game.active_step));

    game.select_book("Enos".to_string());
    assert_eq!(game.selected_chapter, Some(1));
    assert_eq!(game.active_step, GuessStep::Ready);

    game.select_book("Alma".to_string());
    assert_eq!(game.selected_chapter, None);
    assert_eq!(game.active_step, GuessStep::Chapter);
    game.select_chapter(32);
    let request = game.guess_request().unwrap();
    assert_eq!(request.book, "Alma");
    assert_eq!(request.chapter, 32);
    assert_eq!(request.round_index, 0);
}

#[test]
fn books_follow_the_guess_scope() {
    let mut game = Game::new();
    let scope = GameScope {
        canons: vec![CanonScope {
            canon: Canon::BookOfMormon,
            books: BookScope::Selected(vec!["Alma".to_string()]),
        }],
    };
    game.start_game(response(scope, 1));
    let books = game.books_for(Canon::BookOfMormon);
    assert_eq!(books.len(), 1);
    assert_eq!(books[0].name, "Alma");
    assert_eq!(game.all_books_for(Canon::BookOfMormon).len(), 3);
    assert_eq!(game.chapters_for(Canon::BookOfMormon, "Alma"), vec![7, 32]);
    assert!(game.chapters_for(Canon::BookOfMormon, "Jacob").is_empty());
    assert_eq!(game.selected_book.as_deref(), Some("Alma"));
    assert_eq!(game.active_step, GuessStep::Chapter);
}

#[test]
fn guesses_are_recorded_and_scored() {
    let mut game = Game::new();
    game.start_game(response(GameMode::BookOfMormon.scope(), 2));
    game.begin_submitting_guess();
    assert!(game.submitting_guess);
    game.apply_guess(guess_response("Alma", 32, MAX_SCORE, 0));
    assert!(!game.submitting_guess);
    assert_eq!(game.total_score(), MAX_SCORE);
    assert!(!game.current_result_marked_for_review());
    assert!(game.toggle_current_result_review());
    assert!(game.current_result_marked_for_review());
    assert!(!game.is_last_round());

    game.apply_advance(AdvanceGameResponse { current_round_index: 5, finished: false });
    assert_eq!(game.current_round_index, 1);
    assert!(game.is_last_round());
    game.apply_guess(guess_response("Alma", 7, 978, 1));
    assert_eq!(game.total_score(), MAX_SCORE + 978);

    assert!(game.can_finish());
    game.apply_advance(AdvanceGameResponse { current_round_index: 1, finished: true });
    assert!(game.finished);
    assert!(game.last_game_new_best);
    assert_eq!(game.stats.games_played, 1);
    assert_eq!(game.stats.rounds_played, 2);
    assert_eq!(game.stats.total_score, MAX_SCORE + 978);
    assert_eq!(game.stats.total_possible_score, 2 * MAX_SCORE);

    game.apply_advance(AdvanceGameResponse { current_round_index: 1, finished: true });
    assert_eq!(game.stats.games_played, 1);
}

#[test]
fn restoring_a_game_clamps_the_round_and_keeps_outcomes() {
    let mut game = Game::new();
    game.restore_game(GameSnapshotResponse {
        game_id: "snap".to_string(),
        rounds: vec![
            SnapshotRound { text: "one".to_string(), guess: Some(guess_response("Alma", 32, MAX_SCORE, 0)) },
            SnapshotRound { text: "two".to_string(), guess: None },
        ],
        current_round_index: 9,
        finished: false,
        difficulty: Difficulty::Easy,
        scope: GameMode::BookOfMormon.scope(),
        metadata: book_of_mormon_metadata(),
        playable_verse_count: 10,
        total_verse_count: 12,
        max_total_score: 2 * MAX_SCORE,
    });
    assert_eq!(game.current_round_index, 1);
    assert_eq!(game.rounds.len(), 2);
    assert_eq!(game.rounds[0].guess, Some(GuessResult::from(guess_response("Alma", 32, MAX_SCORE, 0))));
    assert_eq!(game.game_id.as_deref(), Some("snap"));
    assert_eq!(game.max_total_score(), 2 * MAX_SCORE);
    assert_eq!(game.screen, Screen::Playing);
}

#[test]
fn metadata_is_taken_only_for_the_current_settings() {
    let mut game = Game::new();
    game.apply_metadata(MetadataResponse {
        difficulty: Difficulty::Hard,
        scope: GameMode::BookOfMormon.scope(),
        metadata: book_of_mormon_metadata(),
        playable_verse_count: 10,
        total_verse_count: 12,
    });
    assert!(game.metadata.is_empty());
    game.apply_metadata(MetadataResponse {
        difficulty: Difficulty::Normal,
        scope: GameMode::BookOfMormon.scope(),
        metadata: book_of_mormon_metadata(),
        playable_verse_count: 10,
        total_verse_count: 12,
    });
    assert_eq!(game.metadata.len(), 1);
    assert!(game.metadata_ready());
    assert_eq!(game.verse_count_for_difficulty(), 10);
    assert_eq!(game.total_verse_count(), 12);
    assert_eq!(game.selected_canon, Some(Canon::BookOfMormon));
}

#[test]
fn toggling_canons_keeps_reading_order() {
    let mut game = Game::new();
    game.toggle_canon(Canon::OldTestament);
    game.toggle_canon(Canon::PearlOfGreatPrice);
    game.toggle_canon(Canon::NewTestament);
    let canons = game.settings.scope.canons.iter().map(|scope| scope.canon).collect::<Vec<_>>();
    assert_eq!(
        canons,
        vec![Canon::OldTestament, Canon::NewTestament, Canon::BookOfMormon, Canon::PearlOfGreatPrice]
    );
    game.toggle_canon(Canon::BookOfMormon);
    game.toggle_canon(Canon::OldTestament);
    game.toggle_canon(Canon::NewTestament);
    game.toggle_canon(Canon::PearlOfGreatPrice);
    assert!(game.settings.scope.canons.is_empty());
    assert!(game.metadata.is_empty());
    assert_eq!(game.metadata_scope, game.settings.scope);
    assert!(game.metadata_current());
}

#[test]
fn settings_changes_clear_the_guess() {
    let mut game = Game::new();
    game.set_round_count(12);
    assert_eq!(game.settings.round_count, 12);
    game.set_difficulty(Difficulty::Hard);
    assert_eq!(game.settings.difficulty, Difficulty::Hard);
    game.set_preset(GameMode::Bible);
    assert_eq!(game.settings.scope, GameMode::Bible.scope());
    game.set_canon_book_scope(Canon::NewTestament, BookScope::Selected(vec!["Matthew".to_string()]));
    assert_eq!(game.settings.scope.canons[1].books, BookScope::Selected(vec!["Matthew".to_string()]));
    game.set_canon_book_scope(Canon::BookOfMormon, BookScope::All);
    assert_eq!(game.settings.scope.canons.len(), 2);
    let request = game.new_game_request();
    assert_eq!(
        request,
        NewGameRequest::Random { round_count: 12, difficulty: Difficulty::Hard, scope: game.settings.scope.clone() }
    );
    assert_eq!(game.max_total_score(), 12 * MAX_SCORE);
}

#[test]
fn study_sets_are_created_edited_and_deleted() {
    let mut game = Game::new();
    let id = game.create_study_set();
    assert!(id.starts_with("custom-"));
    assert_eq!(id.len(), "custom-".len() + 16);
    assert_eq!(game.custom_study_sets.sets.len(), 1);
    assert_eq!(game.custom_study_sets.sets[0].name, "Untitled set");

    game.rename_study_set(&id, "Faith".to_string());
    let passage = StudyPassage { canon: Canon::BookOfMormon, book: "Alma".to_string(), chapter: 32, verses: vec![21] };
    game.add_study_passage(&id, passage.clone());
    game.add_study_passage(&id, passage.clone());
    game.set_study_guess_scope(&id, StudyGuessScope::BooksInSet);
    game.set_study_prompt_policy(&id, PromptPolicy::WholePassage);
    let set = &game.custom_study_sets.sets[0];
    assert_eq!(set.name, "Faith");
    assert_eq!(set.passages, vec![passage]);
    assert_eq!(set.guess_scope, StudyGuessScope::BooksInSet);
    assert_eq!(set.prompt_policy, PromptPolicy::WholePassage);

    let request = game.study_set_game_request(&game.custom_study_sets.sets[0].clone(), 10).unwrap();
    match request {
        NewGameRequest::Study { round_count, prompt_policy, .. } => {
            assert_eq!(round_count, 1);
            assert_eq!(prompt_policy, PromptPolicy::WholePassage);
        }
        NewGameRequest::Random { .. } => panic!("expected a study request"),
    }

    game.remove_study_passage(&id, 5);
    assert_eq!(game.custom_study_sets.sets[0].passages.len(), 1);
    game.remove_study_passage(&id, 0);
    assert!(game.custom_study_sets.sets[0].passages.is_empty());
    assert!(game.study_set_game_request(&game.custom_study_sets.sets[0].clone(), 10).is_none());

    let other = game.save_custom_study_set(StudySet {
        id: String::new(),
        name: "Other".to_string(),
        passages: Vec::new(),
        guess_scope: StudyGuessScope::FullCanons,
        prompt_policy: PromptPolicy::Automatic,
    });
    assert_ne!(other, id);
    game.delete_study_set(&id);
    assert_eq!(game.custom_study_sets.sets.len(), 1);
    assert_eq!(game.custom_study_sets.sets[0].id, other);
}

#[test]
fn custom_set_ids_are_sixteen_hex_digits() {
    assert_eq!(custom_set_id(0), "custom-0000000000000000");
    assert_eq!(custom_set_id(0xdead_beef), "custom-00000000deadbeef");
    assert_eq!(custom_set_id(u64::MAX), "custom-ffffffffffffffff");
}

#[test]
fn review_game_plays_every_marked_passage() {
    let mut game = Game::new();
    assert!(game.review_game_request().is_none());
    game.start_game(response(GameMode::BookOfMormon.scope(), 1));
    game.apply_guess(guess_response("Alma", 32, MAX_SCORE, 0));
    game.toggle_current_result_review();
    let request = game.review_game_request().unwrap();
    match request {
        NewGameRequest::Study { round_count, passages, prompt_policy, scope, .. } => {
            assert_eq!(round_count, 1);
            assert_eq!(passages.len(), 1);
            assert_eq!(prompt_policy, PromptPolicy::WholePassage);
            assert_eq!(scope, GameScope { canons: vec![CanonScope { canon: Canon::BookOfMormon, books: BookScope::All }] });
        }
        NewGameRequest::Random { .. } => panic!("expected a study request"),
    }
    let passage = game.stats.review_items[0].passage.clone();
    assert!(game.remove_review_item(&passage));
    assert!(game.stats.review_items.is_empty());
}

#[test]
fn selection_labels_name_the_scope() {
    let mut settings = GameSettings::default();
    assert_eq!(settings.selection_label(), "Book of Mormon");
    settings.scope = GameScope { canons: Vec::new() };
    assert_eq!(settings.selection_label(), "No scope selected");
    settings.scope = GameScope {
        canons: vec![
            CanonScope { canon: Canon::BookOfMormon, books: BookScope::Selected(vec!["Alma".to_string()]) },
            CanonScope { canon: Canon::DoctrineAndCovenants, books: BookScope::All },
        ],
    };
    assert_eq!(settings.selection_label(), "Alma only + Doctrine and Covenants");
    settings.scope = GameScope {
        canons: vec![
            CanonScope { canon: Canon::OldTestament, books: BookScope::All },
            CanonScope { canon: Canon::NewTestament, books: BookScope::Selected(vec!["Matthew".to_string(), "Mark".to_string()]) },
            CanonScope { canon: Canon::BookOfMormon, books: BookScope::Selected(Vec::new()) },
            CanonScope { canon: Canon::PearlOfGreatPrice, books: BookScope::All },
        ],
    };
    assert_eq!(settings.selection_label(), "Custom: 2 books + 2 full canons");
    settings.scope = GameScope {
        canons: vec![CanonScope {
            canon: Canon::BookOfMormon,
            books: BookScope::Selected(vec!["A".to_string(), "B".to_string(), "C".to_string(), "D".to_string()]),
        }],
    };
    assert_eq!(settings.selection_label(), "4 Book of Mormon books");
}

#[test]
fn setup_subtitle_describes_the_settings() {
    let mut game = Game::new();
    assert_eq!(setup_subtitle(&game), "Book of Mormon · loading game data");
    game.apply_metadata(MetadataResponse {
        difficulty: Difficulty::Normal,
        scope: GameMode::BookOfMormon.scope(),
        metadata: book_of_mormon_metadata(),
        playable_verse_count: 10,
        total_verse_count: 12,
    });
    assert_eq!(setup_subtitle(&game), "Book of Mormon · 5 rounds · Normal · 10 of 12 verses in play");
    game.toggle_canon(Canon::BookOfMormon);
    assert_eq!(setup_subtitle(&game), "No scope selected · choose a scope to start");
}

#[test]
fn result_feedback_tells_how_close_a_guess_came() {
    let exact = GuessResult::from(guess_response("Alma", 32, MAX_SCORE, 0));
    assert_eq!(result_feedback(&exact), ("Exact match", "You placed the verse in the right book and chapter.".to_string()));
    let same_book = GuessResult::from(guess_response("Alma", 30, 956, 2));
    assert_eq!(result_feedback(&same_book), ("Same book", "Your guess was off by 2 chapters in the same book.".to_string()));
    let other_book = GuessResult::from(guess_response("Helaman", 1, 0, 80));
    assert_eq!(result_feedback(&other_book), ("Same canon", "Your guess was off by 80 chapters.".to_string()));
    let mut other_canon = GuessResult::from(guess_response("Genesis", 1, 0, u32::MAX));
    other_canon.guess.canon = Canon::OldTestament;
    assert_eq!(result_feedback(&other_canon).0, "Different canon");
}

#[test]
fn failed_requests_stop_loading_and_show_the_error() {
    let mut game = Game::new();
    game.begin_starting_game();
    assert!(game.loading_game);
    game.fail_request("Network down".to_string());
    assert!(!game.loading_game);
    assert_eq!(game.error.as_deref(), Some("Network down"));
    game.begin_starting_game();
    assert!(game.error.is_none());
    assert_eq!(GuessStep::Ready.label(), "Review");
    let request = game.metadata_request();
    assert_eq!(request.scope, GameMode::BookOfMormon.scope());
    assert_eq!(game.study_metadata_request().scope, GameMode::AllStandardWorks.scope());
}
