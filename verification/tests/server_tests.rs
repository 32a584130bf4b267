use std::time::{SystemTime, UNIX_EPOCH};

use rand::rngs::SmallRng;
use rand::SeedableRng;
use scripguessr::api::{GuessRequest, MetadataRequest, NewGameRequest};
use scripguessr::scoring::MAX_SCORE;
use scripguessr::scriptures::{
    BookScope, Canon, CanonScope, Difficulty, FlatVerse, GameMode, GameScope, Reference, ScriptureLibrary, Scriptures,
};
use scripguessr::server::{
    advance_game, create_game, distinct_passages, game_snapshot, games_snapshot_ready, metadata_response, prune_games, study_passages, study_rounds, submit_guess,
    validate_game_basics, validate_study_passages, verse_at, ErrorStatus, GameProgress, GameStore, RoundAnswer, ServerGame,
    MAX_GAME_ROUNDS,
};
use scripguessr::study_sets::{PromptPolicy, StudyPassage};

const SECOND: u128 = 1_000_000_000;

fn stored_game(rounds: Vec<RoundAnswer>, last_seen_at: u128) -> ServerGame {
    let progress = GameProgress::fresh(Difficulty::Normal, rounds.len(), rounds.len());
    ServerGame { scope: GameMode::BookOfMormon.scope(), rounds, last_seen_at, progress }
}

fn now() -> u128 {
    SystemTime::now().duration_since(UNIX_EPOCH).unwrap().as_nanos()
}

fn verse(reference: &str, text: &str) -> FlatVerse {
    FlatVerse { reference: reference.to_string(), text: text.to_string() }
}

fn library() -> ScriptureLibrary {
    let long = "The people remembered the words of the prophets and kept the commandments with steady hearts";
    let verses = vec![
        verse("1 Nephi 1:1", "I Nephi having been born of goodly parents was taught somewhat in all the learning of my father"),
        verse("1 Nephi 1:2", "Yea I make a record in the language of my father which consists of the learning of the Jews"),
        verse("1 Nephi 2:1", "For behold it came to pass that the Lord spake unto my father yea even in a dream"),
        verse("Alma 7:11", "And he shall go forth suffering pains and afflictions and temptations of every kind"),
        verse("Alma 7:12", "And he will take upon him death that he may loose the bands of death which bind his people"),
        verse("Alma 7:13", "Now the Spirit knoweth all things nevertheless the Son of God suffereth according to the flesh"),
        verse("Alma 32:21", "And now as I said concerning faith faith is not to have a perfect knowledge of things"),
        verse("Alma 37:6", "Now ye may suppose that this is foolishness in me but behold by small and simple things"),
        verse("Moroni 7:45", "And charity suffereth long and is kind and envieth not and is not puffed up"),
        verse("Moroni 7:46", "Wherefore my beloved brethren if ye have not charity ye are nothing for charity never faileth"),
        verse("Moroni 7:47", "But charity is the pure love of Christ and it endureth forever and whoso is found possessed"),
        verse("Moroni 7:48", long),
    ];
    let mut library = ScriptureLibrary::default();
    library.insert(Canon::BookOfMormon, Scriptures::from_flat_verses(Canon::BookOfMormon, verses));
    library
}

fn alma_scope() -> GameScope {
    GameScope {
        canons: vec![CanonScope { canon: Canon::BookOfMormon, books: BookScope::Selected(vec!["Alma".to_string()]) }],
    }
}

fn study_request(scope: GameScope, passages: Vec<StudyPassage>, prompt_policy: PromptPolicy) -> NewGameRequest {
    NewGameRequest::Study {
        round_count: passages.len(),
        difficulty: Difficulty::Normal,
        scope,
        passages,
        prompt_policy,
    }
}

fn passage(book: &str, chapter: u16, verses: Vec<u16>) -> StudyPassage {
    StudyPassage { canon: Canon::BookOfMormon, book: book.to_string(), chapter, verses }
}

fn guess(round_index: usize, answer: &StudyPassage) -> GuessRequest {
    GuessRequest { round_index, canon: answer.canon, book: answer.book.clone(), chapter: answer.chapter }
}

#[test]
fn pruning_removes_only_expired_games() {
    let mut store = GameStore::new();
    store.insert(
        "expired".to_string(),
        stored_game(Vec::new(), 0),
    );
    let now = now();
    store.insert(
        "active".to_string(),
        stored_game(Vec::new(), now),
    );

    prune_games(&mut store, now, 60 * SECOND);

    assert!(store.get("expired").is_none());
    assert!(store.get("active").is_some());
}

#[test]
fn pruning_keeps_everything_when_the_ttl_reaches_before_the_epoch() {
    let mut store = GameStore::new();
    store.insert(
        "old".to_string(),
        stored_game(Vec::new(), 0),
    );
    prune_games(&mut store, 10, 60 * SECOND);
    assert!(store.get("old").is_some());
}

#[test]
fn metadata_endpoint_returns_books_and_counts() {
    let library = library();
    let response = metadata_response(
        &library,
        &MetadataRequest { difficulty: Difficulty::Normal, scope: GameMode::BookOfMormon.scope() },
    )
    .unwrap();

    assert_eq!(response.scope, GameMode::BookOfMormon.scope());
    assert_eq!(response.metadata.len(), 1);
    assert_eq!(response.metadata[0].books[0].name, "1 Nephi");
    assert!(response.playable_verse_count > 0);
    assert!(response.total_verse_count >= response.playable_verse_count);
    assert_eq!(response.total_verse_count, 12);
}

#[test]
fn metadata_endpoint_counts_selected_books_but_keeps_book_choices() {
    let library = library();
    let response =
        metadata_response(&library, &MetadataRequest { difficulty: Difficulty::Normal, scope: alma_scope() }).unwrap();

    assert_eq!(response.metadata.len(), 1);
    assert!(response.metadata[0].books.iter().any(|book| book.name == "Alma"));
    assert!(response.metadata[0].books.iter().any(|book| book.name == "Moroni"));
    assert_eq!(response.total_verse_count, 5);
}

#[test]
fn metadata_needs_a_scope() {
    let library = library();
    let error = metadata_response(
        &library,
        &MetadataRequest { difficulty: Difficulty::Normal, scope: GameScope { canons: Vec::new() } },
    )
    .unwrap_err();
    assert_eq!(error.status, ErrorStatus::BadRequest);
    assert_eq!(error.message, "At least one scope item must be selected");
}

#[test]
fn create_game_returns_prompts_without_answers() {
    let library = library();
    let mut store = GameStore::new();
    let mut rng = SmallRng::seed_from_u64(7);
    let request = NewGameRequest::Random {
        round_count: 1,
        difficulty: Difficulty::Normal,
        scope: GameMode::BookOfMormon.scope(),
    };

    let body = create_game(&library, &mut store, request, now(), 60 * SECOND, &mut rng).unwrap();

    assert_eq!(body.rounds.len(), 1);
    assert!(!body.game_id.is_empty());
    assert!(body.game_id.chars().all(|c| c.is_ascii_digit()));
    assert!(!body.rounds[0].text.is_empty());
    assert_eq!(body.max_total_score, MAX_SCORE);
    assert_eq!(store.get(&body.game_id).unwrap().rounds.len(), 1);
}

#[test]
fn create_game_rejects_excessive_round_counts() {
    let library = library();
    let mut store = GameStore::new();
    let mut rng = SmallRng::seed_from_u64(7);
    let request = NewGameRequest::Random {
        round_count: MAX_GAME_ROUNDS + 1,
        difficulty: Difficulty::Normal,
        scope: GameMode::BookOfMormon.scope(),
    };

    let error = create_game(&library, &mut store, request, now(), 60 * SECOND, &mut rng).unwrap_err();

    assert_eq!(error.status, ErrorStatus::BadRequest);
    assert_eq!(error.message, "Too many rounds requested");
    assert!(store.games.is_empty());
}

#[test]
fn create_game_rejects_an_empty_scope_and_no_rounds() {
    assert_eq!(
        validate_game_basics(0, &GameMode::BookOfMormon.scope()).unwrap_err().message,
        "Game must include rounds and scope"
    );
    assert_eq!(
        validate_game_basics(3, &GameScope { canons: Vec::new() }).unwrap_err().message,
        "Game must include rounds and scope"
    );
    assert!(validate_game_basics(MAX_GAME_ROUNDS, &GameMode::BookOfMormon.scope()).is_ok());
}

#[test]
fn random_game_without_playable_verses_is_refused() {
    let library = library();
    let mut store = GameStore::new();
    let mut rng = SmallRng::seed_from_u64(7);
    let request = NewGameRequest::Random { round_count: 2, difficulty: Difficulty::Normal, scope: GameMode::Bible.scope() };
    let error = create_game(&library, &mut store, request, now(), 60 * SECOND, &mut rng).unwrap_err();
    assert_eq!(error.message, "No playable verses found");
}

#[test]
fn verse_picks_walk_the_scope_in_order() {
    let library = library();
    let scope = GameScope {
        canons: vec![
            CanonScope { canon: Canon::BookOfMormon, books: BookScope::Selected(vec!["Moroni".to_string()]) },
            CanonScope { canon: Canon::BookOfMormon, books: BookScope::Selected(vec!["1 Nephi".to_string()]) },
        ],
    };
    let first = verse_at(&library, Difficulty::Hard, &scope, 0).unwrap();
    assert_eq!(first.reference.book, "Moroni");
    assert_eq!(first.reference.verse, 45);
    let fifth = verse_at(&library, Difficulty::Hard, &scope, 4).unwrap();
    assert_eq!(fifth.reference.book, "1 Nephi");
    assert_eq!(verse_at(&library, Difficulty::Hard, &scope, 7).unwrap_err().message, "No playable verses found");
    let unloaded = GameScope { canons: vec![CanonScope { canon: Canon::OldTestament, books: BookScope::All }] };
    assert_eq!(verse_at(&library, Difficulty::Hard, &unloaded, 0).unwrap_err().message, "Unknown canon");
}

#[test]
fn study_game_resolves_only_the_requested_number_of_rounds() {
    let library = library();
    let mut store = GameStore::new();
    let mut rng = SmallRng::seed_from_u64(3);
    let passages = (45..=48).map(|v| passage("Moroni", 7, vec![v])).chain((11..=13).map(|v| passage("Alma", 7, vec![v]))).collect::<Vec<_>>();
    let request = NewGameRequest::Study {
        round_count: 5,
        difficulty: Difficulty::Normal,
        scope: GameMode::BookOfMormon.scope(),
        passages,
        prompt_policy: PromptPolicy::Automatic,
    };

    let body = create_game(&library, &mut store, request, now(), 60 * SECOND, &mut rng).unwrap();

    assert_eq!(body.rounds.len(), 5);
    assert_eq!(store.get(&body.game_id).unwrap().rounds.len(), 5);
    assert_eq!(body.playable_verse_count, 5);
}

#[test]
fn study_game_rejects_an_invalid_unselected_passage() {
    let library = library();
    let mut store = GameStore::new();
    let mut rng = SmallRng::seed_from_u64(3);
    let mut passages = (1..=2).map(|verse| passage("1 Nephi", 1, vec![verse])).collect::<Vec<_>>();
    passages.push(passage("1 Nephi", 1, vec![999]));
    let request = NewGameRequest::Study {
        round_count: 1,
        difficulty: Difficulty::Normal,
        scope: GameMode::BookOfMormon.scope(),
        passages,
        prompt_policy: PromptPolicy::WholePassage,
    };

    let error = create_game(&library, &mut store, request, now(), 60 * SECOND, &mut rng).unwrap_err();

    assert_eq!(error.status, ErrorStatus::BadRequest);
    assert_eq!(error.message, "Study passage was not found");
}

#[test]
fn study_passages_are_checked_in_order() {
    let library = library();
    let scope = alma_scope();
    assert_eq!(
        validate_study_passages(&library, &scope, &vec![]).unwrap_err().message,
        "Study game must include passages"
    );
    assert_eq!(
        validate_study_passages(&library, &scope, &vec![passage("Moroni", 7, vec![45])]).unwrap_err().message,
        "Study passage is outside the game scope"
    );
    assert_eq!(
        validate_study_passages(&library, &scope, &vec![passage("Alma", 7, vec![])]).unwrap_err().message,
        "Study passage has an invalid verse count"
    );
    assert!(validate_study_passages(&library, &scope, &vec![passage("Alma", 7, vec![11, 12])]).is_ok());
}

#[test]
fn create_game_uses_selected_book_scope() {
    let library = library();
    let mut store = GameStore::new();
    let mut rng = SmallRng::seed_from_u64(11);
    let request = NewGameRequest::Random { round_count: 4, difficulty: Difficulty::Normal, scope: alma_scope() };

    let body = create_game(&library, &mut store, request, now(), 60 * SECOND, &mut rng).unwrap();

    for round in &store.get(&body.game_id).unwrap().rounds {
        assert_eq!(round.passage.book, "Alma");
    }
}

#[test]
fn create_review_game_uses_each_requested_verse_once() {
    let library = library();
    let mut store = GameStore::new();
    let mut rng = SmallRng::seed_from_u64(5);
    let references = [
        Reference { canon: Canon::BookOfMormon, book: "Alma".to_string(), chapter: 32, verse: 21 },
        Reference { canon: Canon::BookOfMormon, book: "Alma".to_string(), chapter: 37, verse: 6 },
    ];
    let passages = references.iter().map(StudyPassage::single).collect();
    let request = study_request(alma_scope(), passages, PromptPolicy::WholePassage);

    let body = create_game(&library, &mut store, request, now(), 60 * SECOND, &mut rng).unwrap();

    assert_eq!(body.rounds.len(), references.len());
    assert_eq!(body.playable_verse_count, references.len());
    let rounds = &store.get(&body.game_id).unwrap().rounds;
    assert!(references
        .iter()
        .all(|reference| rounds.iter().any(|round| round.passage == StudyPassage::single(reference))));
}

#[test]
fn repeated_passages_are_played_once() {
    let library = library();
    let mut rng = SmallRng::seed_from_u64(9);
    let repeated = vec![passage("Alma", 32, vec![21]), passage("Alma", 37, vec![6]), passage("Alma", 32, vec![21])];
    assert_eq!(distinct_passages(&repeated).len(), 2);
    let rounds = study_passages(&library, repeated, 10, PromptPolicy::WholePassage, &mut rng).unwrap();
    assert_eq!(rounds.len(), 2);
    assert_ne!(rounds[0].source_passage, rounds[1].source_passage);
    let none = study_passages(&library, vec![passage("Alma", 32, vec![21])], 0, PromptPolicy::WholePassage, &mut rng);
    assert_eq!(none.unwrap_err().message, "No study passages found");
}

#[test]
fn study_rounds_follow_the_picks() {
    let library = library();
    let selected = vec![passage("Moroni", 7, vec![45, 46, 47, 48]), passage("Alma", 7, vec![11, 12, 13])];
    let rounds = study_rounds(&library, &selected, PromptPolicy::Automatic, &vec![2, 0]).unwrap();
    assert_eq!(rounds[0].passage, passage("Moroni", 7, vec![47]));
    assert_eq!(rounds[0].source_passage, selected[0]);
    assert!(rounds[0].text.starts_with("But charity is the pure love of Christ"));
    assert_eq!(rounds[1].passage, selected[1]);
    assert!(rounds[1].text.starts_with("And he shall go forth"));
    assert!(rounds[1].text.contains("afflictions and temptations of every kind And he will take"));
    let missing = study_rounds(&library, &vec![passage("Alma", 99, vec![1])], PromptPolicy::WholePassage, &vec![0]);
    assert_eq!(missing.unwrap_err().message, "Study passage was not found");
}

#[test]
fn guess_endpoint_returns_score_and_chapter_verses() {
    let library = library();
    let mut store = GameStore::new();
    let mut rng = SmallRng::seed_from_u64(13);
    let nephi = GameScope {
        canons: vec![CanonScope { canon: Canon::BookOfMormon, books: BookScope::Selected(vec!["1 Nephi".to_string()]) }],
    };
    let request = NewGameRequest::Random { round_count: 1, difficulty: Difficulty::Normal, scope: nephi };
    let game = create_game(&library, &mut store, request, now(), 60 * SECOND, &mut rng).unwrap();
    let answer = store.get(&game.game_id).unwrap().rounds[0].passage.clone();

    let body = submit_guess(&library, &mut store, &game.game_id, guess(0, &answer), now(), 60 * SECOND).unwrap();

    assert_eq!(body.score.points, MAX_SCORE);
    assert_eq!(body.answer, answer);
    assert_eq!(body.chapter_verses[0].verse, 1);
    assert!(body.chapter_verses.iter().any(|verse| answer.contains_verse(verse.verse)));
}

#[test]
fn guess_endpoint_preserves_a_multi_verse_answer() {
    let library = library();
    let mut store = GameStore::new();
    let mut rng = SmallRng::seed_from_u64(17);
    let passage = passage("Alma", 7, vec![11, 12, 13]);
    let request = study_request(alma_scope(), vec![passage.clone()], PromptPolicy::WholePassage);

    let game = create_game(&library, &mut store, request, now(), 60 * SECOND, &mut rng).unwrap();
    let body = submit_guess(&library, &mut store, &game.game_id, guess(0, &passage), now(), 60 * SECOND).unwrap();

    assert_eq!(body.answer, passage);
    assert!(body.answer.contains_verse(11));
    assert!(body.answer.contains_verse(13));
    assert_eq!(body.chapter_verses.len(), 3);
    assert_eq!(body.score.points, MAX_SCORE);
}

#[test]
fn automatic_prompt_policy_uses_one_verse_from_long_passages() {
    let library = library();
    let mut store = GameStore::new();
    let mut rng = SmallRng::seed_from_u64(19);
    let passage = passage("Moroni", 7, vec![45, 46, 47, 48]);
    let request = study_request(GameMode::BookOfMormon.scope(), vec![passage.clone()], PromptPolicy::Automatic);

    let game = create_game(&library, &mut store, request, now(), 60 * SECOND, &mut rng).unwrap();
    let body = submit_guess(&library, &mut store, &game.game_id, guess(0, &passage), now(), 60 * SECOND).unwrap();

    assert_eq!(body.answer.verses.len(), 1);
    assert_eq!(body.source_passage, passage);
    assert!(body.source_passage.contains_verse(body.answer.verses[0]));
}

#[test]
fn expired_game_returns_not_found_on_guess() {
    let library = library();
    let mut store = GameStore::new();
    store.insert(
        "expired".to_string(),
        stored_game(Vec::new(), 0),
    );

    let error = submit_guess(
        &library,
        &mut store,
        "expired",
        GuessRequest { round_index: 0, canon: Canon::BookOfMormon, book: "1 Nephi".to_string(), chapter: 1 },
        now(),
        60 * SECOND,
    )
    .unwrap_err();

    assert_eq!(error.status, ErrorStatus::NotFound);
    assert_eq!(error.message, "Game not found");
}

#[test]
fn guesses_on_missing_rounds_are_refused_and_mark_the_game_seen() {
    let library = library();
    let mut store = GameStore::new();
    let now = now();
    store.insert(
        "game".to_string(),
        stored_game(Vec::new(), now - SECOND),
    );
    let error = submit_guess(
        &library,
        &mut store,
        "game",
        GuessRequest { round_index: 3, canon: Canon::BookOfMormon, book: "Alma".to_string(), chapter: 7 },
        now,
        60 * SECOND,
    )
    .unwrap_err();
    assert_eq!(error.status, ErrorStatus::BadRequest);
    assert_eq!(error.message, "Round not found");
    assert_eq!(store.get("game").unwrap().last_seen_at, now);
}

#[test]
fn wrong_guess_is_scored_by_distance() {
    let library = library();
    let mut store = GameStore::new();
    let mut rng = SmallRng::seed_from_u64(23);
    let answer = passage("Alma", 32, vec![21]);
    let request = study_request(alma_scope(), vec![answer.clone()], PromptPolicy::WholePassage);
    let game = create_game(&library, &mut store, request, now(), 60 * SECOND, &mut rng).unwrap();
    let body = submit_guess(
        &library,
        &mut store,
        &game.game_id,
        GuessRequest { round_index: 0, canon: Canon::BookOfMormon, book: "Alma".to_string(), chapter: 7 },
        now(),
        60 * SECOND,
    )
    .unwrap();
    assert_eq!(body.score.chapter_distance, 1);
    assert_eq!(body.score.points, 978);
    assert_eq!(body.guess.chapter, 7);
}

#[test]
fn too_many_study_passages_are_refused() {
    let library = library();
    let passages = (0..2001).map(|_| passage("Alma", 32, vec![21])).collect::<Vec<_>>();
    assert_eq!(
        validate_study_passages(&library, &alma_scope(), &passages).unwrap_err().message,
        "Too many study passages"
    );
}

#[test]
fn rounds_without_answer_verses_or_a_loaded_canon_are_refused() {
    let library = library();
    let mut store = GameStore::new();
    let now = now();
    let empty = passage("Alma", 32, vec![]);
    let unloaded = StudyPassage { canon: Canon::OldTestament, book: "Genesis".to_string(), chapter: 1, verses: vec![1] };
    store.insert(
        "game".to_string(),
        stored_game(
            vec![
                RoundAnswer { passage: empty.clone(), source_passage: empty, text: String::new() },
                RoundAnswer { passage: unloaded.clone(), source_passage: unloaded, text: "In the beginning".to_string() },
            ],
            now,
        ),
    );
    let first = submit_guess(&library, &mut store, "game", guess(0, &passage("Alma", 32, vec![21])), now, 60 * SECOND);
    let error = first.unwrap_err();
    assert_eq!(error.status, ErrorStatus::BadRequest);
    assert_eq!(error.message, "Round has no answer verses");
    let second = submit_guess(&library, &mut store, "game", guess(1, &passage("Alma", 32, vec![21])), now, 60 * SECOND);
    let error = second.unwrap_err();
    assert_eq!(error.status, ErrorStatus::NotFound);
    assert_eq!(error.message, "Canon not found");
}

#[test]
fn snapshot_resumes_a_game_with_its_guesses() {
    let library = library();
    let mut store = GameStore::new();
    let mut rng = SmallRng::seed_from_u64(29);
    let answer = passage("Alma", 32, vec![21]);
    let request = study_request(alma_scope(), vec![answer.clone()], PromptPolicy::WholePassage);
    let game = create_game(&library, &mut store, request, now(), 60 * SECOND, &mut rng).unwrap();
    assert!(games_snapshot_ready(&library, &store, &game.game_id));

    let fresh = game_snapshot(&library, &mut store, &game.game_id, now(), 60 * SECOND).unwrap();
    assert_eq!(fresh.game_id, game.game_id);
    assert_eq!(fresh.rounds.len(), 1);
    assert_eq!(fresh.rounds[0].text, game.rounds[0].text);
    assert!(fresh.rounds[0].guess.is_none());
    assert_eq!(fresh.current_round_index, 0);
    assert!(!fresh.finished);
    assert_eq!(fresh.difficulty, game.difficulty);
    assert_eq!(fresh.playable_verse_count, game.playable_verse_count);
    assert_eq!(fresh.total_verse_count, game.total_verse_count);
    assert_eq!(fresh.max_total_score, MAX_SCORE);

    let scored = submit_guess(&library, &mut store, &game.game_id, guess(0, &answer), now(), 60 * SECOND).unwrap();
    let resumed = game_snapshot(&library, &mut store, &game.game_id, now(), 60 * SECOND).unwrap();
    let shown = resumed.rounds[0].guess.clone().unwrap();
    assert_eq!(shown.score.points, MAX_SCORE);
    assert_eq!(shown.score, scored.score);
    assert_eq!(shown.answer, scored.answer);
    assert_eq!(shown.chapter_verses.len(), scored.chapter_verses.len());
    assert!(!resumed.finished);

    let advanced = advance_game(&mut store, &game.game_id, now(), 60 * SECOND).unwrap();
    assert_eq!(advanced.current_round_index, 1);
    assert!(advanced.finished);
    let done = game_snapshot(&library, &mut store, &game.game_id, now(), 60 * SECOND).unwrap();
    assert!(done.finished);
    assert_eq!(done.current_round_index, 1);
}

#[test]
fn advancing_moves_through_the_rounds_and_stops_after_the_last() {
    let library = library();
    let mut store = GameStore::new();
    let mut rng = SmallRng::seed_from_u64(31);
    let request = NewGameRequest::Random { round_count: 3, difficulty: Difficulty::Normal, scope: alma_scope() };
    let game = create_game(&library, &mut store, request, now(), 60 * SECOND, &mut rng).unwrap();
    let first = advance_game(&mut store, &game.game_id, now(), 60 * SECOND).unwrap();
    assert_eq!((first.current_round_index, first.finished), (1, false));
    let second = advance_game(&mut store, &game.game_id, now(), 60 * SECOND).unwrap();
    assert_eq!((second.current_round_index, second.finished), (2, false));
    let third = advance_game(&mut store, &game.game_id, now(), 60 * SECOND).unwrap();
    assert_eq!((third.current_round_index, third.finished), (3, true));
    let again = advance_game(&mut store, &game.game_id, now(), 60 * SECOND).unwrap();
    assert_eq!((again.current_round_index, again.finished), (3, true));
}

#[test]
fn snapshots_and_advances_of_unknown_games_are_not_found() {
    let library = library();
    let mut store = GameStore::new();
    store.insert("expired".to_string(), stored_game(Vec::new(), 0));
    let error = game_snapshot(&library, &mut store, "expired", now(), 60 * SECOND).unwrap_err();
    assert_eq!(error.status, ErrorStatus::NotFound);
    assert_eq!(error.message, "Game not found");
    let error = advance_game(&mut store, "missing", now(), 60 * SECOND).unwrap_err();
    assert_eq!(error.status, ErrorStatus::NotFound);
    assert_eq!(error.message, "Game not found");
}
