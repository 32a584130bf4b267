use vstd::prelude::*;

use crate::api::{
    AdvanceGameResponse, CanonMetadata, ChapterVerse, GameSnapshotResponse, GuessReference, GuessRequest,
    GuessResponse, MetadataRequest, MetadataResponse, NewGameRequest, NewGameResponse,
};
use crate::scoring::{Score, MAX_SCORE};
use crate::randomness::thread_random_u64;
use crate::text::{decimal, digit_char, push_char, u64_to_decimal};
use crate::scriptures::{
    books_view, canon_label, canon_order, copy_books, game_mode_label, game_mode_order, game_mode_scope,
    strings_view, scope_position, scope_selection, lemma_scope_position, BookInfo, BookScope, BookSelection, Canon,
    CanonScope, Difficulty, GameMode, GameScope,
};
use crate::stats::{
    game_recorded, review_toggled, review_view, rounds_fit, FinishedGame, FinishedRound, ReviewItem, ScoreMark, Stats,
};
use crate::study_sets::{
    passages_view, resolved_scope_spec, CustomStudySets, PassageView, PromptPolicy, StudyGuessScope, StudyPassage,
    StudySet,
};
use crate::api::{RoundPrompt, SnapshotRound};

verus! {

/// Which screen the player sees.
#[derive(Clone, Copy, Debug, PartialEq, Eq, Structural)]
pub enum Screen {
    Setup,
    Playing,
}

/// The step of building a guess that is open: canon, book, chapter, or the finished guess.
#[derive(Clone, Copy, Debug, PartialEq, Eq, Structural)]
pub enum GuessStep {
    Canon,
    Book,
    Chapter,
    Ready,
}

pub open spec fn guess_step_label(step: GuessStep) -> Seq<char> {
    match step {
        GuessStep::Canon => "Canon"@,
        GuessStep::Book => "Book"@,
        GuessStep::Chapter => "Chapter"@,
        GuessStep::Ready => "Review"@,
    }
}

impl GuessStep {
    pub fn label(self) -> (r: &'static str)
        ensures
            r@ == guess_step_label(self),
    {
        match self {
            GuessStep::Canon => "Canon",
            GuessStep::Book => "Book",
            GuessStep::Chapter => "Chapter",
            GuessStep::Ready => "Review",
        }
    }
}

/// The outcome of a guess, as the client keeps it.
#[derive(Clone, Debug, PartialEq)]
pub struct GuessResult {
    pub answer: StudyPassage,
    pub source_passage: StudyPassage,
    pub guess: GuessReference,
    pub score: Score,
    pub chapter_verses: Vec<ChapterVerse>,
}

impl From<GuessResponse> for GuessResult {
    fn from(response: GuessResponse) -> (r: GuessResult) {
        GuessResult {
            answer: response.answer,
            source_passage: response.source_passage,
            guess: response.guess,
            score: response.score,
            chapter_verses: response.chapter_verses,
        }
    }
}

impl vstd::std_specs::convert::FromSpecImpl<GuessResponse> for GuessResult {
    open spec fn obeys_from_spec() -> bool {
        true
    }

    open spec fn from_spec(response: GuessResponse) -> GuessResult {
        guess_result_of(response)
    }
}

/// The outcome that a guess's answer records.
pub open spec fn guess_result_of(response: GuessResponse) -> GuessResult {
    GuessResult {
        answer: response.answer,
        source_passage: response.source_passage,
        guess: response.guess,
        score: response.score,
        chapter_verses: response.chapter_verses,
    }
}

/// One round as the client shows it: the prompt, and the outcome once guessed.
#[derive(Clone, Debug, PartialEq)]
pub struct Round {
    pub text: String,
    pub guess: Option<GuessResult>,
}

/// The game in play, as the server started it.
#[derive(Clone, Debug, PartialEq)]
pub struct ActiveGame {
    pub round_count: usize,
    pub difficulty: Difficulty,
    pub scope: GameScope,
    pub max_total_score: u32,
    pub label: Option<String>,
}

/// What the player chose on the setup screen.
#[derive(Clone, Debug, PartialEq)]
pub struct GameSettings {
    pub round_count: usize,
    pub difficulty: Difficulty,
    pub scope: GameScope,
}

impl Default for GameSettings {
    fn default() -> (r: GameSettings)
        ensures
            r.round_count == 5,
            r.difficulty == Difficulty::Normal,
            r.scope@ == game_mode_scope(GameMode::BookOfMormon),
    {
        GameSettings { round_count: 5, difficulty: Difficulty::Normal, scope: GameScope::default() }
    }
}

/// The client's whole state.
#[derive(Clone, Debug, PartialEq)]
pub struct Game {
    pub game_id: Option<String>,
    pub metadata: Vec<CanonMetadata>,
    pub study_metadata: Vec<CanonMetadata>,
    pub metadata_difficulty: Difficulty,
    pub metadata_scope: GameScope,
    pub playable_verse_count: usize,
    pub total_verse_count: usize,
    pub settings: GameSettings,
    pub stats: Stats,
    pub custom_study_sets: CustomStudySets,
    pub last_game_new_best: bool,
    pub screen: Screen,
    pub rounds: Vec<Round>,
    pub current_round_index: usize,
    pub selected_canon: Option<Canon>,
    pub selected_book: Option<String>,
    pub selected_chapter: Option<u16>,
    pub active_step: GuessStep,
    pub finished: bool,
    pub loading_game: bool,
    pub submitting_guess: bool,
    pub error: Option<String>,
    pub active_game: Option<ActiveGame>,
}

/// The guess being built: chosen canon, book and chapter, and the open step.
pub struct PathView {
    pub canon: Option<Canon>,
    pub book: Option<Seq<char>>,
    pub chapter: Option<u16>,
    pub step: GuessStep,
}

pub open spec fn opt_string_view(o: Option<String>) -> Option<Seq<char>> {
    match o {
        Some(s) => Some(s@),
        None => None,
    }
}

/// The empty guess, with the canon step open.
pub open spec fn empty_path() -> PathView {
    PathView { canon: None, book: None, chapter: None, step: GuessStep::Canon }
}

/// The scope that guesses are made in: the game's while one is in play, else the settings'.
pub open spec fn guess_scope_spec(g: Game) -> GameScope {
    match g.active_game {
        Some(a) => a.scope,
        None => g.settings.scope,
    }
}

/// Whether the loaded metadata belongs to the game in play (or, with none, to the settings).
pub open spec fn metadata_current_spec(g: Game) -> bool {
    let d = match g.active_game {
        Some(a) => a.difficulty,
        None => g.settings.difficulty,
    };
    let scope = guess_scope_spec(g)@;
    &&& g.metadata_difficulty == d
    &&& g.metadata_scope@ == scope
    &&& (g.metadata@.len() > 0 || scope.len() == 0)
}

pub open spec fn metadata_ready_spec(g: Game) -> bool {
    metadata_current_spec(g) && g.playable_verse_count > 0
}

/// The position of the first metadata entry for a canon, or -1.
pub open spec fn metadata_index(m: Seq<CanonMetadata>, canon: Canon) -> int
    decreases m.len(),
{
    if m.len() == 0 {
        -1
    } else if m[0].canon == canon {
        0
    } else {
        let r = metadata_index(m.drop_first(), canon);
        if r == -1 { -1 } else { r + 1 }
    }
}

proof fn lemma_metadata_index(m: Seq<CanonMetadata>, canon: Canon)
    ensures
        -1 <= metadata_index(m, canon) < m.len(),
        metadata_index(m, canon) != -1 ==> m[metadata_index(m, canon)].canon == canon,
        forall|j: int| 0 <= j < m.len() && (j < metadata_index(m, canon) || metadata_index(m, canon) == -1)
            ==> (#[trigger] m[j]).canon != canon,
    decreases m.len(),
{
    if m.len() > 0 {
        lemma_metadata_index(m.drop_first(), canon);
        assert forall|j: int| 1 <= j < m.len() implies m[j] == m.drop_first()[j - 1] by {}
    }
}

/// The position of the first book with a name, or -1.
pub open spec fn book_index(books: Seq<(Seq<char>, Seq<u16>)>, name: Seq<char>) -> int
    decreases books.len(),
{
    if books.len() == 0 {
        -1
    } else if books[0].0 == name {
        0
    } else {
        let r = book_index(books.drop_first(), name);
        if r == -1 { -1 } else { r + 1 }
    }
}

proof fn lemma_book_index(books: Seq<(Seq<char>, Seq<u16>)>, name: Seq<char>)
    ensures
        -1 <= book_index(books, name) < books.len(),
        book_index(books, name) != -1 ==> books[book_index(books, name)].0 == name,
        forall|j: int| 0 <= j < books.len() && (j < book_index(books, name) || book_index(books, name) == -1)
            ==> (#[trigger] books[j]).0 != name,
    decreases books.len(),
{
    if books.len() > 0 {
        lemma_book_index(books.drop_first(), name);
        assert forall|j: int| 1 <= j < books.len() implies books[j] == books.drop_first()[j - 1] by {}
    }
}

/// Every book of a canon in the loaded metadata.
pub open spec fn all_books_spec(g: Game, canon: Canon) -> Seq<(Seq<char>, Seq<u16>)> {
    let i = metadata_index(g.metadata@, canon);
    if i == -1 { Seq::empty() } else { books_view(g.metadata@[i].books@) }
}

/// The books of a canon that the guess scope offers.
pub open spec fn books_for_spec(g: Game, canon: Canon) -> Seq<(Seq<char>, Seq<u16>)> {
    let books = all_books_spec(g, canon);
    match scope_selection(guess_scope_spec(g)@, canon) {
        Some(BookSelection::Selected(names)) => books.filter(|b: (Seq<char>, Seq<u16>)| names.contains(b.0)),
        _ => books,
    }
}

/// The chapters of a book of a canon in the loaded metadata.
pub open spec fn chapters_for_spec(g: Game, canon: Canon, book: Seq<char>) -> Seq<u16> {
    let books = all_books_spec(g, canon);
    let j = book_index(books, book);
    if j == -1 { Seq::empty() } else { books[j].1 }
}

/// The chapter step taken by itself when the chosen book has a single chapter.
pub open spec fn chapter_step_spec(g: Game, p: PathView) -> PathView {
    if p.step == GuessStep::Chapter && p.canon is Some && p.book is Some
        && chapters_for_spec(g, p.canon->Some_0, p.book->Some_0).len() == 1 {
        PathView {
            chapter: Some(chapters_for_spec(g, p.canon->Some_0, p.book->Some_0)[0]),
            step: GuessStep::Ready,
            ..p
        }
    } else {
        p
    }
}

/// The guess path after taking every step that offers a single option, once metadata is ready.
pub open spec fn advance_spec(g: Game, p: PathView) -> PathView {
    if !metadata_ready_spec(g) {
        p
    } else {
        let scope = guess_scope_spec(g)@;
        let p1 = if p.step == GuessStep::Canon && scope.len() == 1 {
            PathView { canon: Some(scope[0].0), step: GuessStep::Book, ..p }
        } else {
            p
        };
        if p1.step == GuessStep::Book {
            match p1.canon {
                None => p1,
                Some(c) => {
                    let books = books_for_spec(g, c);
                    let p2 = if books.len() == 1 {
                        PathView { book: Some(books[0].0), step: GuessStep::Chapter, ..p1 }
                    } else {
                        p1
                    };
                    chapter_step_spec(g, p2)
                },
            }
        } else {
            chapter_step_spec(g, p1)
        }
    }
}

impl Game {
    /// The guess being built.
    pub open spec fn path(self) -> PathView {
        PathView {
            canon: self.selected_canon,
            book: opt_string_view(self.selected_book),
            chapter: self.selected_chapter,
            step: self.active_step,
        }
    }
}

/// Two states that differ at most in the guess being built.
pub open spec fn same_but_path(a: Game, b: Game) -> bool {
    a == Game {
        selected_canon: a.selected_canon,
        selected_book: a.selected_book,
        selected_chapter: a.selected_chapter,
        active_step: a.active_step,
        ..b
    }
}

impl Game {
    /// The position of the first metadata entry for a canon.
    fn metadata_position(&self, canon: Canon) -> (r: Option<usize>)
        ensures
            match r {
                Some(i) => i < self.metadata@.len() && i as int == metadata_index(self.metadata@, canon),
                None => metadata_index(self.metadata@, canon) == -1,
            },
    {
        proof {
            lemma_metadata_index(self.metadata@, canon);
        }
        let mut i: usize = 0;
        while i < self.metadata.len()
            invariant
                i <= self.metadata@.len(),
                forall|j: int| 0 <= j < i ==> (#[trigger] self.metadata@[j]).canon != canon,
                -1 <= metadata_index(self.metadata@, canon) < self.metadata@.len(),
                metadata_index(self.metadata@, canon) != -1 ==> self.metadata@[metadata_index(self.metadata@, canon)].canon == canon,
                forall|j: int| 0 <= j < self.metadata@.len() && (j < metadata_index(self.metadata@, canon) || metadata_index(self.metadata@, canon) == -1)
                    ==> (#[trigger] self.metadata@[j]).canon != canon,
            decreases self.metadata.len() - i,
        {
            if self.metadata[i].canon == canon {
                return Some(i);
            }
            i = i + 1;
        }
        None
    }

    /// The scope that guesses are made in.
    pub fn guess_scope(&self) -> (r: &GameScope)
        ensures
            *r == guess_scope_spec(*self),
    {
        match &self.active_game {
            Some(game) => &game.scope,
            None => &self.settings.scope,
        }
    }

    pub fn metadata_current(&self) -> (r: bool)
        ensures
            r == metadata_current_spec(*self),
    {
        let difficulty = match &self.active_game {
            Some(game) => game.difficulty,
            None => self.settings.difficulty,
        };
        let scope = self.guess_scope();
        self.metadata_difficulty == difficulty && self.metadata_scope.same_as(scope)
            && (self.metadata.len() > 0 || scope.canons.len() == 0)
    }

    pub fn metadata_ready(&self) -> (r: bool)
        ensures
            r == metadata_ready_spec(*self),
    {
        self.metadata_current() && self.playable_verse_count > 0
    }

    /// Every book of a canon in the loaded metadata.
    pub fn all_books_for(&self, canon: Canon) -> (r: Vec<BookInfo>)
        ensures
            books_view(r@) == all_books_spec(*self, canon),
    {
        match self.metadata_position(canon) {
            Some(i) => copy_books(&self.metadata[i].books),
            None => Vec::new(),
        }
    }

    /// The books of a canon that the guess scope offers, in metadata order.
    pub fn books_for(&self, canon: Canon) -> (r: Vec<BookInfo>)
        ensures
            books_view(r@) == books_for_spec(*self, canon),
    {
        let i = match self.metadata_position(canon) {
            Some(i) => i,
            None => {
                return Vec::new();
            },
        };
        let books = &self.metadata[i].books;
        match self.guess_scope().canon_scope(canon) {
            Some(canon_scope) => match &canon_scope.books {
                BookScope::Selected(selected) => {
                    let ghost all = books_view(books@);
                    let ghost keep = |b: (Seq<char>, Seq<u16>)| crate::scriptures::strings_view(selected@).contains(b.0);
                    let mut r: Vec<BookInfo> = Vec::new();
                    let mut k: usize = 0;
                    while k < books.len()
                        invariant
                            k <= books@.len(),
                            all == books_view(books@),
                            keep == (|b: (Seq<char>, Seq<u16>)| crate::scriptures::strings_view(selected@).contains(b.0)),
                            books_view(r@) == all.take(k as int).filter(keep),
                        decreases books.len() - k,
                    {
                        proof {
                            assert(all.take(k + 1) =~= all.take(k as int).push(all[k as int]));
                            all.take(k as int).lemma_filter_push(all[k as int], keep);
                        }
                        if crate::scriptures::strings_contain(selected, books[k].name.as_str()) {
                            let ghost before = books_view(r@);
                            r.push(books[k].copy());
                            assert(books_view(r@) =~= before.push(all[k as int]));
                        }
                        k = k + 1;
                    }
                    assert(all.take(books@.len() as int) =~= all);
                    r
                },
                BookScope::All => copy_books(books),
            },
            None => copy_books(books),
        }
    }

    /// The chapters of a book of a canon in the loaded metadata.
    pub fn chapters_for(&self, canon: Canon, book: &str) -> (r: Vec<u16>)
        ensures
            r@ == chapters_for_spec(*self, canon, book@),
    {
        let i = match self.metadata_position(canon) {
            Some(i) => i,
            None => {
                return Vec::new();
            },
        };
        let books = &self.metadata[i].books;
        let ghost all = books_view(books@);
        proof {
            lemma_book_index(all, book@);
        }
        let mut k: usize = 0;
        while k < books.len()
            invariant
                k <= books@.len(),
                all == books_view(books@),
                i < self.metadata@.len(),
                i as int == metadata_index(self.metadata@, canon),
                *books == self.metadata@[i as int].books,
                forall|j: int| 0 <= j < k ==> (#[trigger] all[j]).0 != book@,
                -1 <= book_index(all, book@) < all.len(),
                book_index(all, book@) != -1 ==> all[book_index(all, book@)].0 == book@,
                forall|j: int| 0 <= j < all.len() && (j < book_index(all, book@) || book_index(all, book@) == -1)
                    ==> (#[trigger] all[j]).0 != book@,
            decreases books.len() - k,
        {
            assert(all[k as int] == (books@[k as int].name@, books@[k as int].chapters@));
            if crate::text::str_equal(books[k].name.as_str(), book) {
                assert(book_index(all, book@) == k);
                assert(all_books_spec(*self, canon) == all);
                assert(all[k as int].1 == books@[k as int].chapters@);
                return crate::scriptures::copy_u16s(&books[k].chapters);
            }
            k = k + 1;
        }
        Vec::new()
    }

    /// Takes every step of the guess that offers a single option, once metadata is ready.
    fn advance_past_single_option_steps(&mut self)
        ensures
            final(self).path() == advance_spec(*old(self), old(self).path()),
            same_but_path(*final(self), *old(self)),
    {
        if !self.metadata_ready() {
            return;
        }
        let ghost g0 = *self;
        if self.active_step == GuessStep::Canon && self.guess_scope().canons.len() == 1 {
            let canon = self.guess_scope().canons[0].canon;
            assert(guess_scope_spec(g0)@[0].0 == canon);
            self.selected_canon = Some(canon);
            self.active_step = GuessStep::Book;
        }
        if self.active_step == GuessStep::Book {
            let canon = match self.selected_canon {
                Some(c) => c,
                None => {
                    return;
                },
            };
            let books = self.books_for(canon);
            if books.len() == 1 {
                assert(books_view(books@)[0].0 == books@[0].name@);
                self.selected_book = Some(books[0].name.clone());
                self.active_step = GuessStep::Chapter;
            }
        }
        if self.active_step == GuessStep::Chapter {
            let canon = match self.selected_canon {
                Some(c) => c,
                None => {
                    return;
                },
            };
            let chapters = match &self.selected_book {
                Some(book) => self.chapters_for(canon, book.as_str()),
                None => {
                    return;
                },
            };
            if chapters.len() == 1 {
                self.selected_chapter = Some(chapters[0]);
                self.active_step = GuessStep::Ready;
            }
        }
    }
}

/// A state with the guess path of another.
pub open spec fn with_path(g: Game, from: Game) -> Game {
    Game {
        selected_canon: from.selected_canon,
        selected_book: from.selected_book,
        selected_chapter: from.selected_chapter,
        active_step: from.active_step,
        ..g
    }
}

/// The rounds that prompts open: each prompt's text, not yet guessed.
pub open spec fn rounds_from_prompts(prompts: Seq<RoundPrompt>) -> Seq<Round> {
    prompts.map_values(|p: RoundPrompt| Round { text: p.text, guess: None })
}

/// A round restored from a snapshot, with its outcome if it was guessed.
pub open spec fn restored_round(r: SnapshotRound) -> Round {
    Round {
        text: r.text,
        guess: match r.guess {
            Some(g) => Some(guess_result_of(g)),
            None => None,
        },
    }
}

/// The passages of the items marked for review.
pub open spec fn review_passages(items: Seq<ReviewItem>) -> Seq<PassageView> {
    items.map_values(|i: ReviewItem| i.passage@)
}

/// Whether a request starts a study game on passages, with the round count, difficulty,
/// scope and policy given.
pub open spec fn is_study_request(
    r: NewGameRequest,
    round_count: usize,
    difficulty: Difficulty,
    scope: Seq<(Canon, BookSelection)>,
    passages: Seq<PassageView>,
    prompt_policy: PromptPolicy,
) -> bool {
    match r {
        NewGameRequest::Study { round_count: rc, difficulty: d, scope: sc, passages: ps, prompt_policy: pp } => {
            &&& rc == round_count
            &&& d == difficulty
            &&& sc@ == scope
            &&& passages_view(ps@) == passages
            &&& pp == prompt_policy
        },
        _ => false,
    }
}

impl Game {
    /// A fresh client: the default settings, no game, no metadata.
    pub fn new() -> (r: Game)
        ensures
            r.game_id is None,
            r.metadata@.len() == 0,
            r.study_metadata@.len() == 0,
            r.metadata_difficulty == Difficulty::Normal,
            r.metadata_scope@ == game_mode_scope(GameMode::BookOfMormon),
            r.playable_verse_count == 0,
            r.total_verse_count == 0,
            r.settings.round_count == 5,
            r.settings.difficulty == Difficulty::Normal,
            r.settings.scope@ == game_mode_scope(GameMode::BookOfMormon),
            r.stats.games_played == 0,
            r.stats.rounds_played == 0,
            r.stats.total_score == 0,
            r.stats.total_possible_score == 0,
            r.stats.best_score is None,
            r.stats.books@.len() == 0,
            r.stats.review_items@.len() == 0,
            r.custom_study_sets.sets@.len() == 0,
            !r.last_game_new_best,
            r.screen == Screen::Setup,
            r.rounds@.len() == 0,
            r.current_round_index == 0,
            r.path() == empty_path(),
            !r.finished,
            !r.loading_game,
            !r.submitting_guess,
            r.error is None,
            r.active_game is None,
    {
        let settings = GameSettings::default();
        let metadata_scope = settings.scope.copy();
        Game {
            game_id: None,
            metadata: Vec::new(),
            study_metadata: Vec::new(),
            metadata_difficulty: Difficulty::Normal,
            metadata_scope,
            playable_verse_count: 0,
            total_verse_count: 0,
            settings,
            stats: Stats::default(),
            custom_study_sets: CustomStudySets::default(),
            last_game_new_best: false,
            screen: Screen::Setup,
            rounds: Vec::new(),
            current_round_index: 0,
            selected_canon: None,
            selected_book: None,
            selected_chapter: None,
            active_step: GuessStep::Canon,
            finished: false,
            loading_game: false,
            submitting_guess: false,
            error: None,
            active_game: None,
        }
    }

    /// The request for the metadata of the chosen settings.
    pub fn metadata_request(&self) -> (r: MetadataRequest)
        ensures
            r.difficulty == self.settings.difficulty,
            r.scope@ == self.settings.scope@,
    {
        MetadataRequest { difficulty: self.settings.difficulty, scope: self.settings.scope.copy() }
    }

    /// The request for the metadata that study sets are edited against.
    pub fn study_metadata_request(&self) -> (r: MetadataRequest)
        ensures
            r.difficulty == Difficulty::Normal,
            r.scope@ == game_mode_scope(GameMode::AllStandardWorks),
    {
        MetadataRequest { difficulty: Difficulty::Normal, scope: GameMode::AllStandardWorks.scope() }
    }

    pub fn apply_study_metadata(&mut self, response: MetadataResponse)
        ensures
            *final(self) == (Game { study_metadata: response.metadata, ..*old(self) }),
    {
        self.study_metadata = response.metadata;
    }

    /// The request for a random game on the chosen settings.
    pub fn new_game_request(&self) -> (r: NewGameRequest)
        ensures
            r matches NewGameRequest::Random { round_count, difficulty, scope }
                && round_count == self.settings.round_count
                && difficulty == self.settings.difficulty
                && scope@ == self.settings.scope@,
    {
        NewGameRequest::Random {
            round_count: self.settings.round_count,
            difficulty: self.settings.difficulty,
            scope: self.settings.scope.copy(),
        }
    }

    /// The request for a game on a study set's passages, at most `round_count` rounds; none
    /// for a set without passages.
    pub fn study_set_game_request(&self, set: &StudySet, round_count: usize) -> (r: Option<NewGameRequest>)
        ensures
            set.passages@.len() == 0 ==> r is None,
            set.passages@.len() > 0 ==> (r matches Some(req) && is_study_request(
                req,
                if round_count < set.passages@.len() { round_count } else { set.passages@.len() as usize },
                self.settings.difficulty,
                resolved_scope_spec(set.guess_scope, passages_view(set.passages@)),
                passages_view(set.passages@),
                set.prompt_policy,
            )),
    {
        if set.passages.len() == 0 {
            return None;
        }
        let count = if round_count < set.passages.len() { round_count } else { set.passages.len() };
        Some(NewGameRequest::Study {
            round_count: count,
            difficulty: self.settings.difficulty,
            scope: set.resolved_guess_scope(),
            passages: crate::study_sets::copy_passages(&set.passages),
            prompt_policy: set.prompt_policy,
        })
    }

    /// The request for a game on every passage marked for review, each shown whole and
    /// guessed among full canons; none when nothing is marked.
    pub fn review_game_request(&self) -> (r: Option<NewGameRequest>)
        ensures
            self.stats.review_items@.len() == 0 ==> r is None,
            self.stats.review_items@.len() > 0 ==> (r matches Some(req) && is_study_request(
                req,
                self.stats.review_items@.len() as usize,
                self.settings.difficulty,
                resolved_scope_spec(StudyGuessScope::FullCanons, review_passages(self.stats.review_items@)),
                review_passages(self.stats.review_items@),
                PromptPolicy::WholePassage,
            )),
    {
        let mut passages: Vec<StudyPassage> = Vec::new();
        let mut i: usize = 0;
        while i < self.stats.review_items.len()
            invariant
                i <= self.stats.review_items@.len(),
                passages_view(passages@) == review_passages(self.stats.review_items@).take(i as int),
            decreases self.stats.review_items.len() - i,
        {
            let ghost before = passages_view(passages@);
            passages.push(self.stats.review_items[i].passage());
            assert(passages_view(passages@) =~= before.push(self.stats.review_items@[i as int].passage@));
            assert(review_passages(self.stats.review_items@).take(i + 1)
                =~= review_passages(self.stats.review_items@).take(i as int).push(self.stats.review_items@[i as int].passage@));
            i = i + 1;
        }
        assert(review_passages(self.stats.review_items@).take(i as int) =~= review_passages(self.stats.review_items@));
        let round_count = passages.len();
        let set = StudySet {
            id: String::from_str("review"),
            name: String::from_str("Marked verses"),
            passages,
            guess_scope: StudyGuessScope::FullCanons,
            prompt_policy: PromptPolicy::WholePassage,
        };
        self.study_set_game_request(&set, round_count)
    }

    /// Takes in the metadata of the chosen settings, while on the setup screen and only if it
    /// still matches them.
    pub fn apply_metadata(&mut self, response: MetadataResponse)
        ensures
            (old(self).screen != Screen::Setup || response.difficulty != old(self).settings.difficulty
                || response.scope@ != old(self).settings.scope@) ==> *final(self) == *old(self),
            (old(self).screen == Screen::Setup && response.difficulty == old(self).settings.difficulty
                && response.scope@ == old(self).settings.scope@) ==> {
                &&& *final(self) == with_path(Game {
                    metadata_difficulty: response.difficulty,
                    metadata_scope: response.scope,
                    metadata: response.metadata,
                    playable_verse_count: response.playable_verse_count,
                    total_verse_count: response.total_verse_count,
                    ..*old(self)
                }, *final(self))
                &&& final(self).path() == advance_spec(*final(self), old(self).path())
            },
    {
        if self.screen != Screen::Setup {
            return;
        }
        if response.difficulty != self.settings.difficulty || !response.scope.same_as(&self.settings.scope) {
            return;
        }
        self.metadata_difficulty = response.difficulty;
        self.metadata_scope = response.scope;
        self.metadata = response.metadata;
        self.playable_verse_count = response.playable_verse_count;
        self.total_verse_count = response.total_verse_count;
        self.advance_past_single_option_steps();
    }

    pub fn begin_starting_game(&mut self)
        ensures
            *final(self) == (Game { loading_game: true, error: None, ..*old(self) }),
    {
        self.loading_game = true;
        self.error = None;
    }

    pub fn fail_request(&mut self, error: String)
        ensures
            *final(self) == (Game { loading_game: false, submitting_guess: false, error: Some(error), ..*old(self) }),
    {
        self.loading_game = false;
        self.submitting_guess = false;
        self.error = Some(error);
    }

    pub fn begin_submitting_guess(&mut self)
        ensures
            *final(self) == (Game { submitting_guess: true, error: None, ..*old(self) }),
    {
        self.submitting_guess = true;
        self.error = None;
    }

    /// Forgets the guess being built and takes the steps that offer a single option.
    fn reset_guess_path(&mut self)
        ensures
            same_but_path(*final(self), *old(self)),
            final(self).path() == advance_spec(*old(self), empty_path()),
    {
        self.selected_canon = None;
        self.selected_book = None;
        self.selected_chapter = None;
        self.active_step = GuessStep::Canon;
        self.advance_past_single_option_steps();
    }

    pub fn clear_guess(&mut self)
        ensures
            same_but_path(*final(self), *old(self)),
            final(self).path() == advance_spec(*old(self), empty_path()),
    {
        self.reset_guess_path();
    }

    pub fn start_game(&mut self, response: NewGameResponse)
        ensures
            started_from(*old(self), *final(self), response, None),
    {
        self.start_game_named(response, None);
    }

    /// Opens a game the server started, under an optional label; the settings stay as chosen.
    pub fn start_game_named(&mut self, response: NewGameResponse, label: Option<String>)
        ensures
            started_from(*old(self), *final(self), response, label),
    {
        let scope_copy = response.scope.copy();
        self.active_game = Some(ActiveGame {
            round_count: response.rounds.len(),
            difficulty: response.difficulty,
            scope: scope_copy,
            max_total_score: response.max_total_score,
            label,
        });
        let NewGameResponse {
            game_id,
            rounds: prompts,
            difficulty,
            scope,
            metadata,
            playable_verse_count,
            total_verse_count,
            max_total_score: _,
        } = response;
        self.game_id = Some(game_id);
        self.metadata_difficulty = difficulty;
        self.metadata_scope = scope;
        self.metadata = metadata;
        self.playable_verse_count = playable_verse_count;
        self.total_verse_count = total_verse_count;
        self.last_game_new_best = false;
        let ghost all = prompts@;
        let mut source = prompts;
        let mut rounds: Vec<Round> = Vec::new();
        while source.len() > 0
            invariant
                rounds@.len() + source@.len() == all.len(),
                source@ == all.skip(rounds@.len() as int),
                rounds@ == rounds_from_prompts(all.take(rounds@.len() as int)),
            decreases source.len(),
        {
            let ghost k = rounds@.len() as int;
            let prompt = source.remove(0);
            assert(prompt == all[k]);
            rounds.push(Round { text: prompt.text, guess: None });
            assert(all.skip(k).drop_first() =~= all.skip(k + 1));
            assert(rounds@ =~= rounds_from_prompts(all.take(k + 1)));
        }
        assert(all.take(all.len() as int) =~= all);
        self.rounds = rounds;
        self.current_round_index = 0;
        self.reset_guess_path();
        self.finished = false;
        self.loading_game = false;
        self.submitting_guess = false;
        self.error = None;
        self.screen = Screen::Playing;
    }
}

/// Whether a state opened a started game over an earlier one.
pub open spec fn started_from(before: Game, after: Game, response: NewGameResponse, label: Option<String>) -> bool {
    &&& after == with_path(Game {
        active_game: after.active_game,
        game_id: Some(response.game_id),
        metadata_difficulty: response.difficulty,
        metadata_scope: response.scope,
        metadata: response.metadata,
        playable_verse_count: response.playable_verse_count,
        total_verse_count: response.total_verse_count,
        last_game_new_best: false,
        rounds: after.rounds,
        current_round_index: 0,
        finished: false,
        loading_game: false,
        submitting_guess: false,
        error: None,
        screen: Screen::Playing,
        ..before
    }, after)
    &&& after.active_game matches Some(a) && a.round_count == response.rounds@.len() && a.difficulty == response.difficulty
        && a.scope@ == response.scope@ && a.max_total_score == response.max_total_score && a.label == label
    &&& after.rounds@ == rounds_from_prompts(response.rounds@)
    &&& after.path() == advance_spec(after, empty_path())
}

/// The points scored over the guessed rounds.
pub open spec fn points_total(rounds: Seq<Round>) -> int
    decreases rounds.len(),
{
    if rounds.len() == 0 {
        0
    } else {
        points_total(rounds.drop_last()) + match rounds.last().guess {
            Some(g) => g.score.points as int,
            None => 0int,
        }
    }
}

proof fn lemma_points_prefix(rounds: Seq<Round>, k: int)
    requires
        0 <= k <= rounds.len(),
    ensures
        0 <= points_total(rounds.take(k)) <= points_total(rounds),
    decreases rounds.len() - k,
{
    if k < rounds.len() {
        assert(rounds.drop_last().take(k) =~= rounds.take(k));
        lemma_points_prefix(rounds.drop_last(), k);
    } else {
        assert(rounds.take(k) =~= rounds);
        lemma_points_nonnegative(rounds);
    }
}

proof fn lemma_points_nonnegative(rounds: Seq<Round>)
    ensures
        points_total(rounds) >= 0,
    decreases rounds.len(),
{
    if rounds.len() > 0 {
        lemma_points_nonnegative(rounds.drop_last());
    }
}

/// The guessed rounds as statistics record them: answer book, points, and the most points.
pub open spec fn finished_rounds(rounds: Seq<Round>) -> Seq<(Seq<char>, u32, u32)>
    decreases rounds.len(),
{
    if rounds.len() == 0 {
        Seq::empty()
    } else {
        let before = finished_rounds(rounds.drop_last());
        match rounds.last().guess {
            Some(g) => before.push((g.answer.book@, g.score.points, MAX_SCORE)),
            None => before,
        }
    }
}

/// The most points the game allows: the started game's, else the settings' round count's.
pub open spec fn max_total_spec(g: Game) -> int {
    match g.active_game {
        Some(a) => a.max_total_score as int,
        None => (g.settings.round_count as u32) as int * MAX_SCORE as int,
    }
}

/// The difficulty that a finished game is recorded under.
pub open spec fn game_difficulty(g: Game) -> Difficulty {
    match g.active_game {
        Some(a) => a.difficulty,
        None => g.settings.difficulty,
    }
}

/// The mark that finishing the game records.
pub open spec fn finish_mark(g: Game) -> ScoreMark {
    ScoreMark {
        score: points_total(g.rounds@) as u32,
        possible_score: max_total_spec(g) as u32,
        difficulty: game_difficulty(g),
        round_count: finished_rounds(g.rounds@).len() as usize,
    }
}

/// Whether finishing the game keeps every total within 32 bits.
pub open spec fn finish_fits(g: Game) -> bool {
    &&& points_total(g.rounds@) <= u32::MAX
    &&& max_total_spec(g) <= u32::MAX
    &&& g.stats.games_played < u32::MAX
    &&& g.stats.rounds_played + (finished_rounds(g.rounds@).len() as u32) <= u32::MAX
    &&& g.stats.total_score + points_total(g.rounds@) <= u32::MAX
    &&& g.stats.total_possible_score + max_total_spec(g) <= u32::MAX
    &&& rounds_fit(g.stats.books@, finished_rounds(g.rounds@))
}

/// The guess path after choosing a canon: the book and chapter are kept only for the same canon.
pub open spec fn canon_chosen(p: PathView, canon: Canon) -> PathView {
    if p.canon == Some(canon) {
        PathView { step: GuessStep::Book, ..p }
    } else {
        PathView { canon: Some(canon), book: None, chapter: None, step: GuessStep::Book }
    }
}

/// The guess path after choosing a book: the chapter is kept only for the same book.
pub open spec fn book_chosen(p: PathView, book: Seq<char>) -> PathView {
    if p.book == Some(book) {
        PathView { step: GuessStep::Chapter, ..p }
    } else {
        PathView { book: Some(book), chapter: None, step: GuessStep::Chapter, ..p }
    }
}

impl Game {
    /// Puts the client back on the setup screen, leaving the game.
    pub fn change_settings(&mut self)
        ensures
            *final(self) == with_path(Game {
                screen: Screen::Setup,
                finished: false,
                last_game_new_best: false,
                rounds: final(self).rounds,
                current_round_index: 0,
                game_id: None,
                active_game: None,
                ..*old(self)
            }, *final(self)),
            final(self).rounds@.len() == 0,
            final(self).path() == advance_spec(*final(self), empty_path()),
    {
        self.screen = Screen::Setup;
        self.finished = false;
        self.last_game_new_best = false;
        self.rounds.clear();
        self.current_round_index = 0;
        self.game_id = None;
        self.active_game = None;
        self.clear_guess();
    }

    /// Reopens a game the server holds, at the round it reached.
    pub fn restore_game(&mut self, response: GameSnapshotResponse)
        ensures
            *final(self) == with_path(Game {
                active_game: final(self).active_game,
                game_id: Some(response.game_id),
                metadata_difficulty: response.difficulty,
                metadata_scope: response.scope,
                metadata: response.metadata,
                playable_verse_count: response.playable_verse_count,
                total_verse_count: response.total_verse_count,
                rounds: final(self).rounds,
                current_round_index: if response.rounds@.len() == 0 {
                    0
                } else if response.current_round_index < response.rounds@.len() - 1 {
                    response.current_round_index
                } else {
                    (response.rounds@.len() - 1) as usize
                },
                finished: response.finished,
                loading_game: false,
                submitting_guess: false,
                error: None,
                screen: Screen::Playing,
                ..*old(self)
            }, *final(self)),
            final(self).active_game matches Some(a) && a.round_count == response.rounds@.len()
                && a.difficulty == response.difficulty && a.scope@ == response.scope@
                && a.max_total_score == response.max_total_score && a.label is None,
            final(self).rounds@ == response.rounds@.map_values(|r: SnapshotRound| restored_round(r)),
            final(self).path() == advance_spec(*final(self), empty_path()),
    {
        let scope_copy = response.scope.copy();
        self.active_game = Some(ActiveGame {
            round_count: response.rounds.len(),
            difficulty: response.difficulty,
            scope: scope_copy,
            max_total_score: response.max_total_score,
            label: None,
        });
        let GameSnapshotResponse {
            game_id,
            rounds: snapshot,
            current_round_index,
            finished,
            difficulty,
            scope,
            metadata,
            playable_verse_count,
            total_verse_count,
            max_total_score: _,
        } = response;
        self.game_id = Some(game_id);
        self.metadata_difficulty = difficulty;
        self.metadata_scope = scope;
        self.metadata = metadata;
        self.playable_verse_count = playable_verse_count;
        self.total_verse_count = total_verse_count;
        let ghost all = snapshot@;
        let mut source = snapshot;
        let mut rounds: Vec<Round> = Vec::new();
        while source.len() > 0
            invariant
                rounds@.len() + source@.len() == all.len(),
                source@ == all.skip(rounds@.len() as int),
                rounds@ == all.take(rounds@.len() as int).map_values(|r: SnapshotRound| restored_round(r)),
            decreases source.len(),
        {
            let ghost k = rounds@.len() as int;
            let item = source.remove(0);
            assert(item == all[k]);
            let SnapshotRound { text, guess } = item;
            let result = match guess {
                Some(g) => Some(GuessResult::from(g)),
                None => None,
            };
            rounds.push(Round { text, guess: result });
            assert(all.skip(k).drop_first() =~= all.skip(k + 1));
            assert(rounds@ =~= all.take(k + 1).map_values(|r: SnapshotRound| restored_round(r)));
        }
        assert(all.take(all.len() as int) =~= all);
        self.rounds = rounds;
        let last = if self.rounds.len() == 0 { 0 } else { self.rounds.len() - 1 };
        self.current_round_index = if current_round_index < last { current_round_index } else { last };
        self.finished = finished;
        self.loading_game = false;
        self.submitting_guess = false;
        self.error = None;
        self.screen = Screen::Playing;
        self.reset_guess_path();
    }

    pub fn set_round_count(&mut self, round_count: usize)
        ensures
            *final(self) == (Game { settings: GameSettings { round_count, ..old(self).settings }, ..*old(self) }),
    {
        self.settings.round_count = round_count;
    }

    /// With the scope emptied, the metadata is known without asking: nothing is in play.
    fn apply_empty_scope_metadata(&mut self)
        ensures
            old(self).settings.scope@.len() > 0 ==> *final(self) == *old(self),
            old(self).settings.scope@.len() == 0 ==> {
                &&& *final(self) == (Game {
                    metadata: final(self).metadata,
                    metadata_difficulty: old(self).settings.difficulty,
                    metadata_scope: final(self).metadata_scope,
                    playable_verse_count: 0,
                    total_verse_count: 0,
                    error: None,
                    ..*old(self)
                })
                &&& final(self).metadata@.len() == 0
                &&& final(self).metadata_scope@ == old(self).settings.scope@
            },
    {
        if self.settings.scope.canons.len() > 0 {
            return;
        }
        self.metadata.clear();
        self.metadata_difficulty = self.settings.difficulty;
        self.metadata_scope = self.settings.scope.copy();
        self.playable_verse_count = 0;
        self.total_verse_count = 0;
        self.error = None;
    }

    /// Chooses a difficulty; a new one clears the guess.
    pub fn set_difficulty(&mut self, difficulty: Difficulty)
        ensures
            difficulty == old(self).settings.difficulty ==> *final(self) == *old(self),
            difficulty != old(self).settings.difficulty ==> settings_changed(
                *old(self),
                *final(self),
                GameSettings { difficulty, ..old(self).settings },
                true,
            ),
    {
        if self.settings.difficulty != difficulty {
            self.settings.difficulty = difficulty;
            self.clear_guess();
            self.apply_empty_scope_metadata();
        }
    }

    /// Chooses a preset scope; a new one clears the guess.
    pub fn set_preset(&mut self, mode: GameMode)
        ensures
            old(self).settings.scope@ == game_mode_scope(mode) ==> *final(self) == *old(self),
            old(self).settings.scope@ != game_mode_scope(mode) ==> {
                &&& settings_changed(*old(self), *final(self), GameSettings { scope: final(self).settings.scope, ..old(self).settings }, false)
                &&& final(self).settings.scope@ == game_mode_scope(mode)
            },
    {
        let scope = mode.scope();
        if !self.settings.scope.same_as(&scope) {
            self.settings.scope = scope;
            self.clear_guess();
        }
    }

    /// The round being played.
    pub fn current_round(&self) -> (r: &Round)
        requires
            self.current_round_index < self.rounds@.len(),
        ensures
            *r == self.rounds@[self.current_round_index as int],
    {
        &self.rounds[self.current_round_index]
    }

    pub fn is_last_round(&self) -> (r: bool)
        ensures
            r == (self.current_round_index + 1 == self.rounds@.len()),
    {
        self.rounds.len() > 0 && self.current_round_index == self.rounds.len() - 1
    }

    /// The most points the game allows.
    pub fn max_total_score(&self) -> (r: u32)
        requires
            max_total_spec(*self) <= u32::MAX,
        ensures
            r == max_total_spec(*self),
    {
        match &self.active_game {
            Some(game) => game.max_total_score,
            None => {
                let count = self.settings.round_count as u32;
                assert(count as int * MAX_SCORE as int <= u32::MAX);
                count * MAX_SCORE
            },
        }
    }

    /// The points scored so far.
    pub fn total_score(&self) -> (r: u32)
        requires
            points_total(self.rounds@) <= u32::MAX,
        ensures
            r == points_total(self.rounds@),
    {
        let mut total: u32 = 0;
        let mut i: usize = 0;
        while i < self.rounds.len()
            invariant
                i <= self.rounds@.len(),
                points_total(self.rounds@) <= u32::MAX,
                total == points_total(self.rounds@.take(i as int)),
            decreases self.rounds.len() - i,
        {
            proof {
                assert(self.rounds@.take(i + 1).drop_last() =~= self.rounds@.take(i as int));
                assert(self.rounds@.take(i + 1).last() == self.rounds@[i as int]);
                lemma_points_prefix(self.rounds@, i + 1);
            }
            match &self.rounds[i].guess {
                Some(g) => {
                    total = total + g.score.points;
                },
                None => {},
            }
            i = i + 1;
        }
        assert(self.rounds@.take(i as int) =~= self.rounds@);
        total
    }

    pub fn select_canon(&mut self, canon: Canon)
        ensures
            same_but_path(*final(self), *old(self)),
            final(self).path() == advance_spec(*old(self), canon_chosen(old(self).path(), canon)),
    {
        if self.selected_canon != Some(canon) {
            self.selected_book = None;
            self.selected_chapter = None;
        }
        self.selected_canon = Some(canon);
        self.active_step = GuessStep::Book;
        self.advance_past_single_option_steps();
    }

    pub fn select_book(&mut self, book: String)
        ensures
            same_but_path(*final(self), *old(self)),
            final(self).path() == advance_spec(*old(self), book_chosen(old(self).path(), book@)),
    {
        let same = match &self.selected_book {
            Some(current) => crate::text::str_equal(current.as_str(), book.as_str()),
            None => false,
        };
        if !same {
            self.selected_chapter = None;
        }
        self.selected_book = Some(book);
        self.active_step = GuessStep::Chapter;
        self.advance_past_single_option_steps();
    }

    pub fn select_chapter(&mut self, chapter: u16)
        ensures
            *final(self) == (Game { selected_chapter: Some(chapter), active_step: GuessStep::Ready, ..*old(self) }),
    {
        self.selected_chapter = Some(chapter);
        self.active_step = GuessStep::Ready;
    }

    /// Reopens the book step, once a canon is chosen.
    pub fn open_canon(&mut self)
        ensures
            *final(self) == if old(self).selected_canon is Some {
                Game { active_step: GuessStep::Book, ..*old(self) }
            } else {
                *old(self)
            },
    {
        if self.selected_canon.is_some() {
            self.active_step = GuessStep::Book;
        }
    }

    /// Reopens the chapter step, once a book is chosen.
    pub fn open_book(&mut self)
        ensures
            *final(self) == if old(self).selected_book is Some {
                Game { active_step: GuessStep::Chapter, ..*old(self) }
            } else {
                *old(self)
            },
    {
        if self.selected_book.is_some() {
            self.active_step = GuessStep::Chapter;
        }
    }

    /// Reopens the finished guess, once a chapter is chosen.
    pub fn open_chapter(&mut self)
        ensures
            *final(self) == if old(self).selected_chapter is Some {
                Game { active_step: GuessStep::Ready, ..*old(self) }
            } else {
                *old(self)
            },
    {
        if self.selected_chapter.is_some() {
            self.active_step = GuessStep::Ready;
        }
    }

    /// The guess to send, once canon, book and chapter are chosen.
    pub fn guess_request(&self) -> (r: Option<GuessRequest>)
        ensures
            match (self.selected_canon, self.selected_book, self.selected_chapter) {
                (Some(canon), Some(book), Some(chapter)) => r matches Some(q) && q.round_index == self.current_round_index
                    && q.canon == canon && q.book@ == book@ && q.chapter == chapter,
                _ => r is None,
            },
    {
        let canon = match self.selected_canon {
            Some(c) => c,
            None => {
                return None;
            },
        };
        let book = match &self.selected_book {
            Some(b) => b.clone(),
            None => {
                return None;
            },
        };
        let chapter = match self.selected_chapter {
            Some(c) => c,
            None => {
                return None;
            },
        };
        Some(GuessRequest { round_index: self.current_round_index, canon, book, chapter })
    }

    /// Records the answer to the current round's guess.
    pub fn apply_guess(&mut self, response: GuessResponse)
        ensures
            *final(self) == (Game { rounds: final(self).rounds, submitting_guess: false, ..*old(self) }),
            final(self).rounds@ == if old(self).current_round_index < old(self).rounds@.len() {
                old(self).rounds@.update(
                    old(self).current_round_index as int,
                    Round {
                        text: old(self).rounds@[old(self).current_round_index as int].text,
                        guess: Some(guess_result_of(response)),
                    },
                )
            } else {
                old(self).rounds@
            },
    {
        if self.current_round_index < self.rounds.len() {
            let i = self.current_round_index;
            let round = self.rounds.remove(i);
            let Round { text, guess: _ } = round;
            let result = GuessResult::from(response);
            self.rounds.insert(i, Round { text, guess: Some(result) });
            assert(self.rounds@ =~= old(self).rounds@.update(
                i as int,
                Round { text: old(self).rounds@[i as int].text, guess: Some(guess_result_of(response)) },
            ));
        }
        self.submitting_guess = false;
    }

    /// Whether the current round's answer is marked for review.
    pub fn current_result_marked_for_review(&self) -> (r: bool)
        requires
            self.current_round_index < self.rounds@.len(),
        ensures
            r == match self.rounds@[self.current_round_index as int].guess {
                Some(g) => exists|i: int| 0 <= i < self.stats.review_items@.len()
                    && (#[trigger] self.stats.review_items@[i]).passage@ == g.answer@,
                None => false,
            },
    {
        match &self.current_round().guess {
            Some(guess) => self.stats.is_marked_for_review(&guess.answer),
            None => false,
        }
    }

    /// Marks or unmarks the current round's answer for review; returns whether it is now marked.
    pub fn toggle_current_result_review(&mut self) -> (marked: bool)
        ensures
            (old(self).current_round_index >= old(self).rounds@.len()
                || old(self).rounds@[old(self).current_round_index as int].guess is None) ==> !marked && *final(self) == *old(self),
            (old(self).current_round_index < old(self).rounds@.len()
                && old(self).rounds@[old(self).current_round_index as int].guess is Some) ==> {
                let round = old(self).rounds@[old(self).current_round_index as int];
                let g = round.guess->Some_0;
                &&& *final(self) == (Game { stats: final(self).stats, ..*old(self) })
                &&& review_toggled(old(self).stats, final(self).stats, (g.answer@, round.text@, g.score.points), marked)
            },
    {
        if self.current_round_index >= self.rounds.len() {
            return false;
        }
        let item = match &self.rounds[self.current_round_index].guess {
            Some(guess) => ReviewItem {
                passage: guess.answer.copy(),
                text: self.rounds[self.current_round_index].text.clone(),
                score: guess.score.points,
            },
            None => {
                return false;
            },
        };
        self.stats.toggle_review_item(item)
    }

    /// Unmarks a passage for review; returns whether it was marked.
    pub fn remove_review_item(&mut self, passage: &StudyPassage) -> (removed: bool)
        ensures
            *final(self) == (Game { stats: final(self).stats, ..*old(self) }),
            final(self).stats == (Stats { review_items: final(self).stats.review_items, ..old(self).stats }),
            review_view(final(self).stats.review_items@)
                == review_view(old(self).stats.review_items@).filter(|r: (PassageView, Seq<char>, u32)| r.0 != passage@),
            removed == exists|i: int| 0 <= i < old(self).stats.review_items@.len()
                && (#[trigger] old(self).stats.review_items@[i]).passage@ == passage@,
    {
        self.stats.remove_review_item(passage)
    }

    /// The finished game, as statistics record it.
    fn finished_game(&self) -> (r: FinishedGame)
        requires
            points_total(self.rounds@) <= u32::MAX,
            max_total_spec(*self) <= u32::MAX,
        ensures
            r.difficulty == game_difficulty(*self),
            r.score == points_total(self.rounds@),
            r.possible_score == max_total_spec(*self),
            crate::stats::rounds_view(r.rounds@) == finished_rounds(self.rounds@),
    {
        let difficulty = match &self.active_game {
            Some(game) => game.difficulty,
            None => self.settings.difficulty,
        };
        let mut rounds: Vec<FinishedRound> = Vec::new();
        let mut i: usize = 0;
        while i < self.rounds.len()
            invariant
                i <= self.rounds@.len(),
                crate::stats::rounds_view(rounds@) == finished_rounds(self.rounds@.take(i as int)),
            decreases self.rounds.len() - i,
        {
            proof {
                assert(self.rounds@.take(i + 1).drop_last() =~= self.rounds@.take(i as int));
                assert(self.rounds@.take(i + 1).last() == self.rounds@[i as int]);
            }
            match &self.rounds[i].guess {
                Some(guess) => {
                    let ghost before = crate::stats::rounds_view(rounds@);
                    rounds.push(FinishedRound {
                        answer_book: guess.answer.book.clone(),
                        score: guess.score.points,
                        possible_score: MAX_SCORE,
                    });
                    assert(crate::stats::rounds_view(rounds@) =~= before.push((guess.answer.book@, guess.score.points, MAX_SCORE)));
                },
                None => {},
            }
            i = i + 1;
        }
        assert(self.rounds@.take(i as int) =~= self.rounds@);
        FinishedGame { difficulty, score: self.total_score(), possible_score: self.max_total_score(), rounds }
    }

    /// Whether finishing the game keeps every total within 32 bits.
    pub fn can_finish(&self) -> (r: bool)
        ensures
            r == finish_fits(*self),
    {
        let mut total: u64 = 0;
        let mut i: usize = 0;
        while i < self.rounds.len()
            invariant
                i <= self.rounds@.len(),
                total == points_total(self.rounds@.take(i as int)),
                total <= u32::MAX,
            decreases self.rounds.len() - i,
        {
            proof {
                assert(self.rounds@.take(i + 1).drop_last() =~= self.rounds@.take(i as int));
                assert(self.rounds@.take(i + 1).last() == self.rounds@[i as int]);
            }
            match &self.rounds[i].guess {
                Some(g) => {
                    total = total + g.score.points as u64;
                },
                None => {},
            }
            if total > u32::MAX as u64 {
                proof {
                    lemma_points_prefix(self.rounds@, i + 1);
                }
                return false;
            }
            i = i + 1;
        }
        assert(self.rounds@.take(i as int) =~= self.rounds@);
        let max_fits = match &self.active_game {
            Some(_) => true,
            None => (self.settings.round_count as u32) as u64 * MAX_SCORE as u64 <= u32::MAX as u64,
        };
        if !max_fits {
            return false;
        }
        let game = self.finished_game();
        self.stats.can_record(&game)
    }

    fn record_finished_game(&mut self)
        requires
            finish_fits(*old(self)),
        ensures
            *final(self) == (Game { stats: final(self).stats, last_game_new_best: final(self).last_game_new_best, ..*old(self) }),
            game_recorded(old(self).stats, final(self).stats, finish_mark(*old(self)), finished_rounds(old(self).rounds@),
                final(self).last_game_new_best),
    {
        let game = self.finished_game();
        assert(crate::stats::record_fits(self.stats, game));
        let best = self.stats.record_game(game);
        self.last_game_new_best = best;
    }

    /// Follows the server to the next round, or to the end of the game.
    pub fn apply_advance(&mut self, response: AdvanceGameResponse)
        requires
            (response.finished && !old(self).finished) ==> finish_fits(*old(self)),
        ensures
            (response.finished && !old(self).finished) ==> {
                &&& *final(self) == (Game {
                    finished: true,
                    stats: final(self).stats,
                    last_game_new_best: final(self).last_game_new_best,
                    ..*old(self)
                })
                &&& game_recorded(old(self).stats, final(self).stats, finish_mark(*old(self)),
                    finished_rounds(old(self).rounds@), final(self).last_game_new_best)
            },
            (response.finished && old(self).finished) ==> *final(self) == *old(self),
            !response.finished ==> {
                &&& *final(self) == with_path(Game {
                    current_round_index: if old(self).rounds@.len() == 0 {
                        0
                    } else if response.current_round_index < old(self).rounds@.len() - 1 {
                        response.current_round_index
                    } else {
                        (old(self).rounds@.len() - 1) as usize
                    },
                    ..*old(self)
                }, *final(self))
                &&& final(self).path() == advance_spec(*final(self), empty_path())
            },
    {
        if response.finished && !self.finished {
            self.finished = true;
            self.record_finished_game();
        } else if !response.finished {
            let last = if self.rounds.len() == 0 { 0 } else { self.rounds.len() - 1 };
            self.current_round_index = if response.current_round_index < last { response.current_round_index } else { last };
            self.reset_guess_path();
        }
    }

    /// The playable verse count of the loaded metadata, while it is current.
    pub fn verse_count_for_difficulty(&self) -> (r: usize)
        ensures
            r == if metadata_current_spec(*self) { self.playable_verse_count } else { 0 },
    {
        if self.metadata_current() { self.playable_verse_count } else { 0 }
    }

    /// The total verse count of the loaded metadata, while it is current.
    pub fn total_verse_count(&self) -> (r: usize)
        ensures
            r == if metadata_current_spec(*self) { self.total_verse_count } else { 0 },
    {
        if self.metadata_current() { self.total_verse_count } else { 0 }
    }
}

/// Whether new settings were taken in: the guess cleared (with the steps that offer a single
/// option taken), and, when `empties` and the new scope is empty, the metadata of nothing.
pub open spec fn settings_changed(before: Game, after: Game, settings: GameSettings, empties: bool) -> bool {
    let mid = Game { settings, ..before };
    let path = advance_spec(mid, empty_path());
    &&& after.path() == path
    &&& if empties && settings.scope@.len() == 0 {
        &&& after == with_path(Game {
            metadata: after.metadata,
            metadata_difficulty: settings.difficulty,
            metadata_scope: after.metadata_scope,
            playable_verse_count: 0,
            total_verse_count: 0,
            error: None,
            ..mid
        }, after)
        &&& after.metadata@.len() == 0
        &&& after.metadata_scope@ == settings.scope@
    } else {
        after == with_path(mid, after)
    }
}

/// A canon's place in reading order.
pub open spec fn canon_rank(c: Canon) -> nat {
    match c {
        Canon::OldTestament => 0,
        Canon::NewTestament => 1,
        Canon::BookOfMormon => 2,
        Canon::DoctrineAndCovenants => 3,
        Canon::PearlOfGreatPrice => 4,
    }
}

fn canon_rank_exec(c: Canon) -> (r: u8)
    ensures
        r == canon_rank(c),
{
    match c {
        Canon::OldTestament => 0,
        Canon::NewTestament => 1,
        Canon::BookOfMormon => 2,
        Canon::DoctrineAndCovenants => 3,
        Canon::PearlOfGreatPrice => 4,
    }
}

/// Inserts a scope entry after every entry whose canon does not come later.
pub open spec fn insert_by_rank(s: Seq<(Canon, BookSelection)>, x: (Canon, BookSelection)) -> Seq<(Canon, BookSelection)>
    decreases s.len(),
{
    if s.len() == 0 {
        seq![x]
    } else if canon_rank(x.0) < canon_rank(s[0].0) {
        seq![x] + s
    } else {
        seq![s[0]] + insert_by_rank(s.drop_first(), x)
    }
}

/// Scope entries stably sorted into reading order.
pub open spec fn sort_by_rank(s: Seq<(Canon, BookSelection)>) -> Seq<(Canon, BookSelection)>
    decreases s.len(),
{
    if s.len() == 0 {
        Seq::empty()
    } else {
        insert_by_rank(sort_by_rank(s.drop_last()), s.last())
    }
}

/// A scope with a canon taken out when it has it, else added with all its books, in reading order.
pub open spec fn toggled_scope(scope: Seq<(Canon, BookSelection)>, canon: Canon) -> Seq<(Canon, BookSelection)> {
    let i = scope_position(scope, canon);
    if i != -1 {
        scope.remove(i)
    } else {
        sort_by_rank(scope.push((canon, BookSelection::All)))
    }
}

pub open spec fn canon_scopes_view(v: Seq<CanonScope>) -> Seq<(Canon, BookSelection)> {
    v.map_values(|c: CanonScope| c@)
}

fn insert_by_rank_vec(v: &mut Vec<CanonScope>, x: CanonScope)
    ensures
        canon_scopes_view(final(v)@) == insert_by_rank(canon_scopes_view(old(v)@), x@),
{
    let ghost orig = canon_scopes_view(v@);
    let ghost xv = x@;
    let key = canon_rank_exec(x.canon);
    assert(orig.skip(0) =~= orig);
    assert(orig.take(0) + insert_by_rank(orig, xv) =~= insert_by_rank(orig, xv));
    let mut p: usize = 0;
    loop
        invariant
            p <= v.len(),
            canon_scopes_view(v@) == orig,
            xv == x@,
            key == canon_rank(x.canon),
            insert_by_rank(orig, xv) == orig.take(p as int) + insert_by_rank(orig.skip(p as int), xv),
        ensures
            p <= v.len(),
            canon_scopes_view(v@) == orig,
            insert_by_rank(orig, xv) == orig.take(p as int) + insert_by_rank(orig.skip(p as int), xv),
            p < v.len() ==> key < canon_rank(orig[p as int].0),
        decreases v.len() - p,
    {
        if p == v.len() {
            break;
        }
        let other = canon_rank_exec(v[p].canon);
        assert(orig[p as int] == v@[p as int]@);
        if key < other {
            break;
        }
        proof {
            let rest = orig.skip(p as int);
            assert(rest[0] == orig[p as int]);
            assert(rest.drop_first() =~= orig.skip(p + 1));
            assert(orig.take(p + 1) =~= orig.take(p as int).push(orig[p as int]));
            assert(orig.take(p as int) + (seq![orig[p as int]] + insert_by_rank(orig.skip(p + 1), xv))
                =~= orig.take(p + 1) + insert_by_rank(orig.skip(p + 1), xv));
        }
        p = p + 1;
    }
    let ghost rest = orig.skip(p as int);
    v.insert(p, x);
    proof {
        if p < orig.len() {
            assert(rest[0] == orig[p as int]);
        }
        assert(canon_scopes_view(v@) =~= orig.take(p as int) + (seq![xv] + rest));
    }
}

/// Scope entries stably sorted into reading order.
fn sort_canon_scopes(v: Vec<CanonScope>) -> (r: Vec<CanonScope>)
    ensures
        canon_scopes_view(r@) == sort_by_rank(canon_scopes_view(v@)),
{
    let ghost all = canon_scopes_view(v@);
    let mut source = v;
    let mut sorted: Vec<CanonScope> = Vec::new();
    let ghost mut k: int = 0;
    while source.len() > 0
        invariant
            0 <= k <= all.len(),
            canon_scopes_view(source@) == all.skip(k),
            canon_scopes_view(sorted@) == sort_by_rank(all.take(k)),
        decreases source.len(),
    {
        let x = source.remove(0);
        proof {
            assert(all.skip(k)[0] == x@);
            assert(all.skip(k).drop_first() =~= all.skip(k + 1));
            assert(all.take(k + 1).drop_last() =~= all.take(k));
            assert(all.take(k + 1).last() == x@);
        }
        insert_by_rank_vec(&mut sorted, x);
        proof {
            k = k + 1;
        }
    }
    assert(all.take(k) =~= all);
    sorted
}

/// Whether scope entries come in strictly rising reading order of their canons, so that
/// each canon appears at most once.
pub open spec fn scope_ranked(s: Seq<(Canon, BookSelection)>) -> bool {
    forall|i: int, j: int| 0 <= i < j < s.len() ==> canon_rank(#[trigger] s[i].0) < canon_rank(#[trigger] s[j].0)
}

/// In a ranked scope, the entry for a canon is found where it stands.
proof fn lemma_ranked_position(s: Seq<(Canon, BookSelection)>, c: Canon, k: int)
    requires
        scope_ranked(s),
        0 <= k < s.len(),
        s[k].0 == c,
    ensures
        scope_position(s, c) == k,
        scope_selection(s, c) == Some(s[k].1),
{
    lemma_scope_position(s, c);
    let p = scope_position(s, c);
    if p != k {
        if p < k {
            assert(canon_rank(s[p].0) < canon_rank(s[k].0));
        } else {
            assert(s[k].0 != c);
        }
    }
}

/// A ranked scope has no entry for a canon exactly when no entry names it.
proof fn lemma_ranked_selection(s: Seq<(Canon, BookSelection)>, c: Canon)
    requires
        scope_ranked(s),
    ensures
        (forall|j: int| 0 <= j < s.len() ==> s[j].0 != c) ==> scope_selection(s, c) is None,
{
    lemma_scope_position(s, c);
}

/// Inserting by rank puts the entry after every entry of no later canon and before the rest.
proof fn lemma_insert_by_rank_split(s: Seq<(Canon, BookSelection)>, x: (Canon, BookSelection))
    requires
        scope_ranked(s),
    ensures
        exists|p: int| 0 <= p <= s.len() && #[trigger] insert_by_rank(s, x) == s.take(p) + seq![x] + s.skip(p)
            && (forall|i: int| 0 <= i < p ==> canon_rank(#[trigger] s[i].0) <= canon_rank(x.0))
            && (forall|i: int| p <= i < s.len() ==> canon_rank(x.0) < canon_rank(#[trigger] s[i].0)),
    decreases s.len(),
{
    if s.len() == 0 {
        assert(insert_by_rank(s, x) =~= s.take(0) + seq![x] + s.skip(0));
    } else if canon_rank(x.0) < canon_rank(s[0].0) {
        assert(insert_by_rank(s, x) =~= s.take(0) + seq![x] + s.skip(0));
        assert forall|i: int| 0 <= i < s.len() implies canon_rank(x.0) < canon_rank(#[trigger] s[i].0) by {
            if i > 0 {
                assert(canon_rank(s[0].0) < canon_rank(s[i].0));
            }
        }
    } else {
        let t = s.drop_first();
        assert forall|i: int, j: int| 0 <= i < j < t.len() implies canon_rank(#[trigger] t[i].0) < canon_rank(#[trigger] t[j].0) by {
            assert(canon_rank(s[i + 1].0) < canon_rank(s[j + 1].0));
        }
        lemma_insert_by_rank_split(t, x);
        let q = choose|q: int| 0 <= q <= t.len() && #[trigger] insert_by_rank(t, x) == t.take(q) + seq![x] + t.skip(q)
            && (forall|i: int| 0 <= i < q ==> canon_rank(#[trigger] t[i].0) <= canon_rank(x.0))
            && (forall|i: int| q <= i < t.len() ==> canon_rank(x.0) < canon_rank(#[trigger] t[i].0));
        let p = q + 1;
        assert(insert_by_rank(s, x) =~= s.take(p) + seq![x] + s.skip(p));
        assert forall|i: int| 0 <= i < p implies canon_rank(#[trigger] s[i].0) <= canon_rank(x.0) by {
            if i > 0 {
                assert(s[i] == t[i - 1]);
            }
        }
        assert forall|i: int| p <= i < s.len() implies canon_rank(x.0) < canon_rank(#[trigger] s[i].0) by {
            assert(s[i] == t[i - 1]);
        }
    }
}

/// Sorting a ranked scope leaves it as it is.
proof fn lemma_sort_ranked(s: Seq<(Canon, BookSelection)>)
    requires
        scope_ranked(s),
    ensures
        sort_by_rank(s) == s,
    decreases s.len(),
{
    if s.len() > 0 {
        let t = s.drop_last();
        assert forall|i: int, j: int| 0 <= i < j < t.len() implies canon_rank(#[trigger] t[i].0) < canon_rank(#[trigger] t[j].0) by {
            assert(canon_rank(s[i].0) < canon_rank(s[j].0));
        }
        lemma_sort_ranked(t);
        lemma_insert_by_rank_split(t, s.last());
        let p = choose|p: int| 0 <= p <= t.len() && #[trigger] insert_by_rank(t, s.last()) == t.take(p) + seq![s.last()] + t.skip(p)
            && (forall|i: int| 0 <= i < p ==> canon_rank(#[trigger] t[i].0) <= canon_rank(s.last().0))
            && (forall|i: int| p <= i < t.len() ==> canon_rank(s.last().0) < canon_rank(#[trigger] t[i].0));
        if p < t.len() {
            assert(canon_rank(t[p].0) < canon_rank(s[s.len() - 1].0));
        }
        assert(t.take(p) + seq![s.last()] + t.skip(p) =~= s);
    }
}

proof fn lemma_toggle_takes_out(scope: Seq<(Canon, BookSelection)>, canon: Canon)
    requires
        scope_ranked(scope),
        scope_position(scope, canon) != -1,
    ensures
        scope_ranked(toggled_scope(scope, canon)),
        scope_selection(toggled_scope(scope, canon), canon) == if scope_selection(scope, canon) is Some {
            None::<BookSelection>
        } else {
            Some(BookSelection::All)
        },
        forall|c: Canon| c != canon ==> #[trigger] scope_selection(toggled_scope(scope, canon), c) == scope_selection(scope, c),
{
    let t = toggled_scope(scope, canon);
    lemma_scope_position(scope, canon);
    let i = scope_position(scope, canon);
    assert(t == scope.remove(i));
    assert forall|a: int, b: int| 0 <= a < b < t.len() implies canon_rank(#[trigger] t[a].0) < canon_rank(#[trigger] t[b].0) by {
        let a2 = if a < i { a } else { a + 1 };
        let b2 = if b < i { b } else { b + 1 };
        assert(t[a] == scope[a2] && t[b] == scope[b2]);
        assert(canon_rank(scope[a2].0) < canon_rank(scope[b2].0));
    }
    assert forall|j: int| 0 <= j < t.len() implies t[j].0 != canon by {
        let j2 = if j < i { j } else { j + 1 };
        assert(t[j] == scope[j2]);
        assert(canon_rank(scope[j2].0) != canon_rank(scope[i].0));
    }
    lemma_ranked_selection(t, canon);
    assert forall|c: Canon| c != canon implies #[trigger] scope_selection(t, c) == scope_selection(scope, c) by {
        lemma_scope_position(scope, c);
        let k = scope_position(scope, c);
        if k != -1 {
            lemma_ranked_position(scope, c, k);
            let k2 = if k < i { k } else { k - 1 };
            assert(t[k2] == scope[k]);
            lemma_ranked_position(t, c, k2);
        } else {
            assert forall|j: int| 0 <= j < t.len() implies t[j].0 != c by {
                let j2 = if j < i { j } else { j + 1 };
                assert(t[j] == scope[j2]);
            }
            lemma_ranked_selection(t, c);
        }
    }
}

proof fn lemma_toggle_adds(scope: Seq<(Canon, BookSelection)>, canon: Canon)
    requires
        scope_ranked(scope),
        scope_position(scope, canon) == -1,
    ensures
        scope_ranked(toggled_scope(scope, canon)),
        scope_selection(toggled_scope(scope, canon), canon) == if scope_selection(scope, canon) is Some {
            None::<BookSelection>
        } else {
            Some(BookSelection::All)
        },
        forall|c: Canon| c != canon ==> #[trigger] scope_selection(toggled_scope(scope, canon), c) == scope_selection(scope, c),
{
    let t = toggled_scope(scope, canon);
    lemma_scope_position(scope, canon);
    let i = scope_position(scope, canon);
    let x = (canon, BookSelection::All);
    let pushed = scope.push(x);
    assert(pushed.drop_last() =~= scope);
    lemma_sort_ranked(scope);
    assert(t == insert_by_rank(scope, x));
    lemma_insert_by_rank_split(scope, x);
    let p = choose|p: int| 0 <= p <= scope.len() && #[trigger] insert_by_rank(scope, x) == scope.take(p) + seq![x] + scope.skip(p)
        && (forall|i: int| 0 <= i < p ==> canon_rank(#[trigger] scope[i].0) <= canon_rank(x.0))
        && (forall|i: int| p <= i < scope.len() ==> canon_rank(x.0) < canon_rank(#[trigger] scope[i].0));
    assert(t.len() == scope.len() + 1);
    assert forall|j: int| 0 <= j < t.len() implies #[trigger] t[j] == if j < p { scope[j] } else if j == p { x } else { scope[j - 1] } by {}
    assert forall|j: int| 0 <= j < p implies canon_rank(#[trigger] scope[j].0) < canon_rank(x.0) by {
        assert(scope[j].0 != canon);
    }
    assert forall|a: int, b: int| 0 <= a < b < t.len() implies canon_rank(#[trigger] t[a].0) < canon_rank(#[trigger] t[b].0) by {
        if b < p {
            assert(canon_rank(scope[a].0) < canon_rank(scope[b].0));
        } else if b == p {
        } else if a < p {
            assert(canon_rank(scope[a].0) < canon_rank(x.0));
        } else if a == p {
        } else {
            assert(canon_rank(scope[a - 1].0) < canon_rank(scope[b - 1].0));
        }
    }
    lemma_ranked_position(t, canon, p);
    assert forall|c: Canon| c != canon implies #[trigger] scope_selection(t, c) == scope_selection(scope, c) by {
        lemma_scope_position(scope, c);
        let k = scope_position(scope, c);
        if k != -1 {
            lemma_ranked_position(scope, c, k);
            let k2 = if k < p { k } else { k + 1 };
            lemma_ranked_position(t, c, k2);
        } else {
            assert forall|j: int| 0 <= j < t.len() implies t[j].0 != c by {
                if j < p {
                } else if j > p {
                    assert(scope[j - 1].0 != c);
                }
            }
            lemma_ranked_selection(t, c);
        }
    }
}

/// Toggling a canon in a scope whose canons are distinct and in reading order keeps them so:
/// the canon's entry goes when it was there and comes with all its books when it was not, and
/// every other canon keeps its selection.
pub proof fn lemma_toggle_keeps_order(scope: Seq<(Canon, BookSelection)>, canon: Canon)
    requires
        scope_ranked(scope),
    ensures
        scope_ranked(toggled_scope(scope, canon)),
        scope_selection(toggled_scope(scope, canon), canon) == if scope_selection(scope, canon) is Some {
            None::<BookSelection>
        } else {
            Some(BookSelection::All)
        },
        forall|c: Canon| c != canon ==> #[trigger] scope_selection(toggled_scope(scope, canon), c) == scope_selection(scope, c),
{
    if scope_position(scope, canon) != -1 {
        lemma_toggle_takes_out(scope, canon);
    } else {
        lemma_toggle_adds(scope, canon);
    }
}

impl Game {
    /// Takes a canon out of the chosen scope, or adds it with all its books in reading order.
    pub fn toggle_canon(&mut self, canon: Canon)
        ensures
            settings_changed(*old(self), *final(self), GameSettings { scope: final(self).settings.scope, ..old(self).settings }, true),
            final(self).settings.scope@ == toggled_scope(old(self).settings.scope@, canon),
    {
        proof {
            lemma_scope_position(self.settings.scope@, canon);
        }
        match self.settings.scope.position_of(canon) {
            Some(i) => {
                self.settings.scope.canons.remove(i);
                assert(self.settings.scope@ =~= old(self).settings.scope@.remove(i as int));
            },
            None => {
                let mut entries: Vec<CanonScope> = Vec::new();
                std::mem::swap(&mut entries, &mut self.settings.scope.canons);
                let ghost before = canon_scopes_view(entries@);
                entries.push(CanonScope { canon, books: BookScope::All });
                assert(canon_scopes_view(entries@) =~= before.push((canon, BookSelection::All)));
                self.settings.scope.canons = sort_canon_scopes(entries);
            },
        }
        self.clear_guess();
        self.apply_empty_scope_metadata();
    }

    /// Chooses which books of a canon in the scope are in play.
    pub fn set_canon_book_scope(&mut self, canon: Canon, books: BookScope)
        ensures
            scope_position(old(self).settings.scope@, canon) == -1 ==> *final(self) == *old(self),
            scope_position(old(self).settings.scope@, canon) != -1 ==> {
                &&& settings_changed(*old(self), *final(self), GameSettings { scope: final(self).settings.scope, ..old(self).settings }, true)
                &&& final(self).settings.scope@ == old(self).settings.scope@.update(scope_position(old(self).settings.scope@, canon), (canon, books@))
            },
    {
        proof {
            lemma_scope_position(self.settings.scope@, canon);
        }
        match self.settings.scope.position_of(canon) {
            Some(i) => {
                self.settings.scope.canons.remove(i);
                self.settings.scope.canons.insert(i, CanonScope { canon, books });
                assert(self.settings.scope@ =~= old(self).settings.scope@.update(i as int, (canon, books@)));
                self.clear_guess();
                self.apply_empty_scope_metadata();
            },
            None => {},
        }
    }
}

/// A hexadecimal digit, in lower case.
pub open spec fn hex_char(d: nat) -> char {
    if d < 10 {
        digit_char(d)
    } else if d == 10 {
        'a'
    } else if d == 11 {
        'b'
    } else if d == 12 {
        'c'
    } else if d == 13 {
        'd'
    } else if d == 14 {
        'e'
    } else {
        'f'
    }
}

/// The last `k` hexadecimal digits of a number, most significant first.
pub open spec fn hex_digits(n: nat, k: nat) -> Seq<char>
    decreases k,
{
    if k == 0 {
        Seq::empty()
    } else {
        hex_digits(n / 16, (k - 1) as nat).push(hex_char(n % 16))
    }
}

/// The id of a saved study set: `custom-` and sixteen hexadecimal digits.
pub open spec fn custom_set_id_spec(n: u64) -> Seq<char> {
    "custom-"@ + hex_digits(n as nat, 16)
}

pub open spec fn pow16(k: nat) -> nat
    decreases k,
{
    if k == 0 { 1 } else { 16 * pow16((k - 1) as nat) }
}

proof fn lemma_hex_digits_injective(a: nat, b: nat, k: nat)
    requires
        a < pow16(k),
        b < pow16(k),
        hex_digits(a, k) == hex_digits(b, k),
    ensures
        a == b,
    decreases k,
{
    if k > 0 {
        let p = pow16((k - 1) as nat);
        assert(hex_digits(a, k).last() == hex_char(a % 16));
        assert(hex_digits(b, k).last() == hex_char(b % 16));
        assert(a % 16 == b % 16);
        assert(hex_digits(a, k).drop_last() == hex_digits(a / 16, (k - 1) as nat));
        assert(hex_digits(b, k).drop_last() == hex_digits(b / 16, (k - 1) as nat));
        assert(a / 16 < p) by (nonlinear_arith)
            requires
                a < 16 * p,
        ;
        assert(b / 16 < p) by (nonlinear_arith)
            requires
                b < 16 * p,
        ;
        lemma_hex_digits_injective(a / 16, b / 16, (k - 1) as nat);
    }
}

/// Different numbers give different study set ids.
pub proof fn lemma_custom_set_id_injective(a: u64, b: u64)
    requires
        custom_set_id_spec(a) == custom_set_id_spec(b),
    ensures
        a == b,
{
    let p = "custom-"@;
    assert((p + hex_digits(a as nat, 16)).skip(p.len() as int) =~= hex_digits(a as nat, 16));
    assert((p + hex_digits(b as nat, 16)).skip(p.len() as int) =~= hex_digits(b as nat, 16));
    reveal_with_fuel(pow16, 17);
    assert(pow16(16) == 0x1_0000_0000_0000_0000nat);
    lemma_hex_digits_injective(a as nat, b as nat, 16);
}

fn hex_char_exec(d: u64) -> (c: char)
    requires
        d < 16,
    ensures
        c == hex_char(d as nat),
{
    if d == 0 {
        '0'
    } else if d == 1 {
        '1'
    } else if d == 2 {
        '2'
    } else if d == 3 {
        '3'
    } else if d == 4 {
        '4'
    } else if d == 5 {
        '5'
    } else if d == 6 {
        '6'
    } else if d == 7 {
        '7'
    } else if d == 8 {
        '8'
    } else if d == 9 {
        '9'
    } else if d == 10 {
        'a'
    } else if d == 11 {
        'b'
    } else if d == 12 {
        'c'
    } else if d == 13 {
        'd'
    } else if d == 14 {
        'e'
    } else {
        'f'
    }
}

fn push_hex_digits(s: &mut String, n: u64, k: u32)
    ensures
        final(s)@ == old(s)@ + hex_digits(n as nat, k as nat),
    decreases k,
{
    if k > 0 {
        push_hex_digits(s, n / 16, k - 1);
        let ghost mid = s@;
        push_char(s, hex_char_exec(n % 16));
        assert(s@ =~= old(s)@ + hex_digits(n as nat, k as nat));
    } else {
        assert(s@ =~= old(s)@ + hex_digits(n as nat, k as nat));
    }
}

/// The id of a saved study set: `custom-` and sixteen hexadecimal digits.
pub fn custom_set_id(n: u64) -> (r: String)
    ensures
        r@ == custom_set_id_spec(n),
{
    let mut s = String::from_str("custom-");
    push_hex_digits(&mut s, n, 16);
    s
}

/// The ids of study sets.
pub open spec fn set_ids(sets: Seq<StudySet>) -> Seq<Seq<char>> {
    sets.map_values(|s: StudySet| s.id@)
}

/// The position of the first study set with an id, or -1.
pub open spec fn set_index(sets: Seq<StudySet>, id: Seq<char>) -> int
    decreases sets.len(),
{
    if sets.len() == 0 {
        -1
    } else if sets[0].id@ == id {
        0
    } else {
        let r = set_index(sets.drop_first(), id);
        if r == -1 { -1 } else { r + 1 }
    }
}

proof fn lemma_set_index(sets: Seq<StudySet>, id: Seq<char>)
    ensures
        -1 <= set_index(sets, id) < sets.len(),
        set_index(sets, id) != -1 ==> sets[set_index(sets, id)].id@ == id,
        forall|j: int| 0 <= j < sets.len() && (j < set_index(sets, id) || set_index(sets, id) == -1)
            ==> (#[trigger] sets[j]).id@ != id,
    decreases sets.len(),
{
    if sets.len() > 0 {
        lemma_set_index(sets.drop_first(), id);
        assert forall|j: int| 1 <= j < sets.len() implies sets[j] == sets.drop_first()[j - 1] by {}
    }
}

/// Among more distinct names than there are names taken, some name is free.
proof fn lemma_free_name(taken: Seq<Seq<char>>, names: Seq<Seq<char>>)
    requires
        names.no_duplicates(),
        names.len() > taken.len(),
    ensures
        exists|k: int| 0 <= k < names.len() && !taken.contains(#[trigger] names[k]),
{
    broadcast use vstd::seq_lib::seq_to_set_is_finite;
    names.unique_seq_to_set();
    taken.lemma_cardinality_of_set();
    if forall|k: int| 0 <= k < names.len() ==> taken.contains(#[trigger] names[k]) {
        assert forall|x: Seq<char>| names.to_set().contains(x) implies taken.to_set().contains(x) by {
            let k = choose|k: int| 0 <= k < names.len() && names[k] == x;
            assert(taken.contains(names[k]));
        }
        vstd::set_lib::lemma_len_subset(names.to_set(), taken.to_set());
    }
}

impl Game {
    /// The position of the first saved study set with an id.
    fn set_position(&self, id: &str) -> (r: Option<usize>)
        ensures
            match r {
                Some(i) => i < self.custom_study_sets.sets@.len() && i as int == set_index(self.custom_study_sets.sets@, id@),
                None => set_index(self.custom_study_sets.sets@, id@) == -1,
            },
    {
        let ghost sets = self.custom_study_sets.sets@;
        proof {
            lemma_set_index(sets, id@);
        }
        let mut i: usize = 0;
        while i < self.custom_study_sets.sets.len()
            invariant
                i <= sets.len(),
                sets == self.custom_study_sets.sets@,
                forall|j: int| 0 <= j < i ==> (#[trigger] sets[j]).id@ != id@,
                -1 <= set_index(sets, id@) < sets.len(),
                set_index(sets, id@) != -1 ==> sets[set_index(sets, id@)].id@ == id@,
                forall|j: int| 0 <= j < sets.len() && (j < set_index(sets, id@) || set_index(sets, id@) == -1)
                    ==> (#[trigger] sets[j]).id@ != id@,
            decreases sets.len() - i,
        {
            if crate::text::str_equal(self.custom_study_sets.sets[i].id.as_str(), id) {
                return Some(i);
            }
            i = i + 1;
        }
        None
    }

    /// The first id from `start` on, counting up, that no saved set has.
    fn free_set_id(&self, start: u64) -> (id: String)
        ensures
            !set_ids(self.custom_study_sets.sets@).contains(id@),
            exists|n: u64| id@ == #[trigger] custom_set_id_spec(n),
    {
        let ghost taken = set_ids(self.custom_study_sets.sets@);
        let count = self.custom_study_sets.sets.len();
        let mut k: usize = 0;
        loop
            invariant
                k <= count,
                count == taken.len(),
                taken == set_ids(self.custom_study_sets.sets@),
                forall|j: int| 0 <= j < k ==> taken.contains(#[trigger] custom_set_id_spec(
                    vstd::wrapping::u64_specs::wrapping_add(start, j as u64))),
            decreases count - k,
        {
            let candidate = custom_set_id(start.wrapping_add(k as u64));
            proof {
                lemma_set_index(self.custom_study_sets.sets@, candidate@);
            }
            match self.set_position(candidate.as_str()) {
                None => {
                    proof {
                        if taken.contains(candidate@) {
                            let j = choose|j: int| 0 <= j < taken.len() && taken[j] == candidate@;
                            assert(self.custom_study_sets.sets@[j].id@ == candidate@);
                        }
                    }
                    return candidate;
                },
                Some(j) => {
                    assert(taken[j as int] == candidate@);
                },
            }
            if k == count {
                // Every one of the `count + 1` distinct ids tried so far is taken, yet only
                // `count` sets are saved: this cannot happen.
                proof {
                    let names = Seq::new((count + 1) as nat, |j: int| custom_set_id_spec(
                        vstd::wrapping::u64_specs::wrapping_add(start, j as u64)));
                    assert forall|a: int, b: int| 0 <= a < names.len() && 0 <= b < names.len() && a != b
                        implies names[a] != names[b] by {
                        if names[a] == names[b] {
                            lemma_custom_set_id_injective(
                                vstd::wrapping::u64_specs::wrapping_add(start, a as u64),
                                vstd::wrapping::u64_specs::wrapping_add(start, b as u64),
                            );
                        }
                    }
                    lemma_free_name(taken, names);
                    let m = choose|m: int| 0 <= m < names.len() && !taken.contains(#[trigger] names[m]);
                    if m < k {
                        assert(taken.contains(custom_set_id_spec(vstd::wrapping::u64_specs::wrapping_add(start, m as u64))));
                    }
                    assert(false);
                }
                return candidate;
            }
            k = k + 1;
        }
    }

    /// Saves a study set under a new id, not used by any saved set; returns the id.
    pub fn save_custom_study_set(&mut self, set: StudySet) -> (id: String)
        ensures
            !set_ids(old(self).custom_study_sets.sets@).contains(id@),
            exists|n: u64| id@ == #[trigger] custom_set_id_spec(n),
            *final(self) == (Game { custom_study_sets: final(self).custom_study_sets, ..*old(self) }),
            final(self).custom_study_sets.sets@.len() == old(self).custom_study_sets.sets@.len() + 1,
            final(self).custom_study_sets.sets@.drop_last() == old(self).custom_study_sets.sets@,
            final(self).custom_study_sets.sets@.last() == (StudySet { id: final(self).custom_study_sets.sets@.last().id, ..set }),
            final(self).custom_study_sets.sets@.last().id@ == id@,
    {
        let id = self.free_set_id(thread_random_u64());
        let mut stored = set;
        stored.id = id.clone();
        self.custom_study_sets.sets.push(stored);
        id
    }
}

/// The study sets after the first set with an id is replaced by `update` of it.
pub open spec fn sets_after(sets: Seq<StudySet>, id: Seq<char>, changed: StudySet) -> Seq<StudySet> {
    let i = set_index(sets, id);
    if i == -1 { sets } else { sets.update(i, changed) }
}

impl Game {
    /// Takes the first saved set with an id out, to be put back changed.
    fn take_set(&mut self, i: usize) -> (set: StudySet)
        requires
            i < old(self).custom_study_sets.sets@.len(),
        ensures
            set == old(self).custom_study_sets.sets@[i as int],
            final(self).custom_study_sets.sets@ == old(self).custom_study_sets.sets@.remove(i as int),
            *final(self) == (Game { custom_study_sets: final(self).custom_study_sets, ..*old(self) }),
    {
        self.custom_study_sets.sets.remove(i)
    }

    /// Puts a set back at a position.
    fn put_set(&mut self, i: usize, set: StudySet)
        requires
            i <= old(self).custom_study_sets.sets@.len(),
        ensures
            final(self).custom_study_sets.sets@ == old(self).custom_study_sets.sets@.insert(i as int, set),
            *final(self) == (Game { custom_study_sets: final(self).custom_study_sets, ..*old(self) }),
    {
        self.custom_study_sets.sets.insert(i, set);
    }

    /// Starts an empty study set, guessed among full canons; returns its id.
    pub fn create_study_set(&mut self) -> (id: String)
        ensures
            !set_ids(old(self).custom_study_sets.sets@).contains(id@),
            exists|n: u64| id@ == #[trigger] custom_set_id_spec(n),
            *final(self) == (Game { custom_study_sets: final(self).custom_study_sets, ..*old(self) }),
            final(self).custom_study_sets.sets@.drop_last() == old(self).custom_study_sets.sets@,
            ({
                let set = final(self).custom_study_sets.sets@.last();
                &&& set.id@ == id@
                &&& set.name@ == "Untitled set"@
                &&& set.passages@.len() == 0
                &&& set.guess_scope == StudyGuessScope::FullCanons
                &&& set.prompt_policy == PromptPolicy::Automatic
            }),
            final(self).custom_study_sets.sets@.len() == old(self).custom_study_sets.sets@.len() + 1,
    {
        self.save_custom_study_set(StudySet {
            id: String::new(),
            name: String::from_str("Untitled set"),
            passages: Vec::new(),
            guess_scope: StudyGuessScope::FullCanons,
            prompt_policy: PromptPolicy::Automatic,
        })
    }

    pub fn rename_study_set(&mut self, id: &str, name: String)
        ensures
            *final(self) == (Game { custom_study_sets: final(self).custom_study_sets, ..*old(self) }),
            final(self).custom_study_sets.sets@ == sets_after(
                old(self).custom_study_sets.sets@,
                id@,
                StudySet { name, ..old(self).custom_study_sets.sets@[set_index(old(self).custom_study_sets.sets@, id@)] },
            ),
    {
        match self.set_position(id) {
            Some(i) => {
                let mut set = self.take_set(i);
                set.name = name;
                self.put_set(i, set);
                assert(self.custom_study_sets.sets@ =~= old(self).custom_study_sets.sets@.update(
                    i as int,
                    StudySet { name, ..old(self).custom_study_sets.sets@[i as int] },
                ));
            },
            None => {},
        }
    }

    /// Adds a passage to a saved set that does not list it yet.
    pub fn add_study_passage(&mut self, id: &str, passage: StudyPassage)
        ensures
            *final(self) == (Game { custom_study_sets: final(self).custom_study_sets, ..*old(self) }),
            ({
                let sets = old(self).custom_study_sets.sets@;
                let i = set_index(sets, id@);
                if i == -1 || passages_view(sets[i].passages@).contains(passage@) {
                    final(self).custom_study_sets.sets@ == sets
                } else {
                    &&& final(self).custom_study_sets.sets@ == sets.update(
                        i,
                        StudySet { passages: final(self).custom_study_sets.sets@[i].passages, ..sets[i] },
                    )
                    &&& final(self).custom_study_sets.sets@[i].passages@ == sets[i].passages@.push(passage)
                }
            }),
    {
        match self.set_position(id) {
            Some(i) => {
                if crate::study_sets::passages_contain(&self.custom_study_sets.sets[i].passages, &passage) {
                    return;
                }
                let mut set = self.take_set(i);
                set.passages.push(passage);
                let ghost changed = set;
                self.put_set(i, set);
                assert(self.custom_study_sets.sets@ =~= old(self).custom_study_sets.sets@.update(i as int, changed));
            },
            None => {},
        }
    }

    pub fn set_study_guess_scope(&mut self, id: &str, guess_scope: StudyGuessScope)
        ensures
            *final(self) == (Game { custom_study_sets: final(self).custom_study_sets, ..*old(self) }),
            final(self).custom_study_sets.sets@ == sets_after(
                old(self).custom_study_sets.sets@,
                id@,
                StudySet { guess_scope, ..old(self).custom_study_sets.sets@[set_index(old(self).custom_study_sets.sets@, id@)] },
            ),
    {
        match self.set_position(id) {
            Some(i) => {
                let mut set = self.take_set(i);
                set.guess_scope = guess_scope;
                self.put_set(i, set);
                assert(self.custom_study_sets.sets@ =~= old(self).custom_study_sets.sets@.update(
                    i as int,
                    StudySet { guess_scope, ..old(self).custom_study_sets.sets@[i as int] },
                ));
            },
            None => {},
        }
    }

    pub fn set_study_prompt_policy(&mut self, id: &str, prompt_policy: PromptPolicy)
        ensures
            *final(self) == (Game { custom_study_sets: final(self).custom_study_sets, ..*old(self) }),
            final(self).custom_study_sets.sets@ == sets_after(
                old(self).custom_study_sets.sets@,
                id@,
                StudySet { prompt_policy, ..old(self).custom_study_sets.sets@[set_index(old(self).custom_study_sets.sets@, id@)] },
            ),
    {
        match self.set_position(id) {
            Some(i) => {
                let mut set = self.take_set(i);
                set.prompt_policy = prompt_policy;
                self.put_set(i, set);
                assert(self.custom_study_sets.sets@ =~= old(self).custom_study_sets.sets@.update(
                    i as int,
                    StudySet { prompt_policy, ..old(self).custom_study_sets.sets@[i as int] },
                ));
            },
            None => {},
        }
    }

    /// Takes the passage at a position out of a saved set.
    pub fn remove_study_passage(&mut self, id: &str, index: usize)
        ensures
            *final(self) == (Game { custom_study_sets: final(self).custom_study_sets, ..*old(self) }),
            ({
                let sets = old(self).custom_study_sets.sets@;
                let i = set_index(sets, id@);
                if i == -1 || index >= sets[i].passages@.len() {
                    final(self).custom_study_sets.sets@ == sets
                } else {
                    &&& final(self).custom_study_sets.sets@ == sets.update(
                        i,
                        StudySet { passages: final(self).custom_study_sets.sets@[i].passages, ..sets[i] },
                    )
                    &&& final(self).custom_study_sets.sets@[i].passages@ == sets[i].passages@.remove(index as int)
                }
            }),
    {
        match self.set_position(id) {
            Some(i) => {
                if index >= self.custom_study_sets.sets[i].passages.len() {
                    return;
                }
                let mut set = self.take_set(i);
                set.passages.remove(index);
                let ghost changed = set;
                self.put_set(i, set);
                assert(self.custom_study_sets.sets@ =~= old(self).custom_study_sets.sets@.update(i as int, changed));
            },
            None => {},
        }
    }

    /// Deletes every saved set with an id.
    pub fn delete_study_set(&mut self, id: &str)
        ensures
            *final(self) == (Game { custom_study_sets: final(self).custom_study_sets, ..*old(self) }),
            final(self).custom_study_sets.sets@ == old(self).custom_study_sets.sets@.filter(|s: StudySet| s.id@ != id@),
    {
        let ghost orig = self.custom_study_sets.sets@;
        let ghost keep = |s: StudySet| s.id@ != id@;
        let mut source: Vec<StudySet> = Vec::new();
        std::mem::swap(&mut source, &mut self.custom_study_sets.sets);
        let mut kept: Vec<StudySet> = Vec::new();
        let ghost mut k: int = 0;
        while source.len() > 0
            invariant
                0 <= k <= orig.len(),
                keep == (|s: StudySet| s.id@ != id@),
                source@ == orig.skip(k),
                kept@ == orig.take(k).filter(keep),
            decreases source.len(),
        {
            let set = source.remove(0);
            proof {
                assert(orig.skip(k)[0] == set);
                assert(orig.skip(k).drop_first() =~= orig.skip(k + 1));
                assert(orig.take(k + 1) =~= orig.take(k).push(set));
                orig.take(k).lemma_filter_push(set, keep);
            }
            if !crate::text::str_equal(set.id.as_str(), id) {
                kept.push(set);
            }
            proof {
                k = k + 1;
            }
        }
        assert(orig.take(k) =~= orig);
        self.custom_study_sets.sets = kept;
    }
}

/// Parts joined by ` + `.
pub open spec fn join_plus(parts: Seq<Seq<char>>) -> Seq<char>
    decreases parts.len(),
{
    if parts.len() == 0 {
        Seq::empty()
    } else if parts.len() == 1 {
        parts[0]
    } else {
        join_plus(parts.drop_last()) + " + "@ + parts.last()
    }
}

/// How one canon of a scope is named: the canon for all its books, else its chosen books.
pub open spec fn scope_label_spec(c: (Canon, BookSelection)) -> Seq<char> {
    match c.1 {
        BookSelection::All => canon_label(c.0),
        BookSelection::Selected(books) => if books.len() == 0 {
            "No "@ + canon_label(c.0)
        } else if books.len() == 1 {
            books[0] + " only"@
        } else if books.len() <= 3 {
            join_plus(books)
        } else {
            decimal(books.len()) + " "@ + canon_label(c.0) + " books"@
        },
    }
}

/// The position of the first preset whose scope is this one, or -1.
pub open spec fn preset_index(scope: Seq<(Canon, BookSelection)>) -> int {
    let modes = game_mode_order();
    if game_mode_scope(modes[0]) == scope {
        0
    } else if game_mode_scope(modes[1]) == scope {
        1
    } else if game_mode_scope(modes[2]) == scope {
        2
    } else if game_mode_scope(modes[3]) == scope {
        3
    } else {
        -1
    }
}

/// How many books the canons with chosen books choose, together.
pub open spec fn selected_books_total(scope: Seq<(Canon, BookSelection)>) -> nat
    decreases scope.len(),
{
    if scope.len() == 0 {
        0
    } else {
        selected_books_total(scope.drop_last()) + match scope.last().1 {
            BookSelection::Selected(books) => books.len(),
            BookSelection::All => 0nat,
        }
    }
}

/// How many canons have all their books chosen.
pub open spec fn full_canons_total(scope: Seq<(Canon, BookSelection)>) -> nat
    decreases scope.len(),
{
    if scope.len() == 0 {
        0
    } else {
        full_canons_total(scope.drop_last()) + if scope.last().1 is All { 1nat } else { 0nat }
    }
}

pub open spec fn scope_labels(scope: Seq<(Canon, BookSelection)>) -> Seq<Seq<char>> {
    scope.map_values(|c: (Canon, BookSelection)| scope_label_spec(c))
}

/// Whether a scope of several canons is short enough to be named canon by canon: at most
/// three parts of at most 24 bytes each.
pub open spec fn names_each_canon(scope: Seq<(Canon, BookSelection)>) -> bool {
    scope.len() <= 3 && forall|i: int| 0 <= i < scope.len()
        ==> vstd::utf8::encode_utf8(#[trigger] scope_labels(scope)[i]).len() <= 24
}

/// Whether naming a scope counts its chosen books.
pub open spec fn label_counts_books(scope: Seq<(Canon, BookSelection)>) -> bool {
    scope.len() > 1 && preset_index(scope) == -1 && !names_each_canon(scope)
}

/// How the chosen scope is named on the setup screen.
pub open spec fn selection_label_spec(scope: Seq<(Canon, BookSelection)>) -> Seq<char> {
    if scope.len() == 0 {
        "No scope selected"@
    } else if preset_index(scope) != -1 {
        game_mode_label(game_mode_order()[preset_index(scope)])
    } else if scope.len() == 1 {
        scope_label_spec(scope[0])
    } else if names_each_canon(scope) {
        join_plus(scope_labels(scope))
    } else {
        let selected = selected_books_total(scope);
        let full = full_canons_total(scope);
        if selected > 0 && full > 0 {
            "Custom: "@ + decimal(selected) + " books + "@ + decimal(full) + " full canons"@
        } else if selected > 0 {
            "Custom: "@ + decimal(selected) + " books across "@ + decimal(scope.len()) + " canons"@
        } else {
            "Custom: "@ + decimal(scope.len()) + " canons"@
        }
    }
}

/// Strings joined by ` + `.
fn join_strings(parts: &Vec<String>) -> (r: String)
    ensures
        r@ == join_plus(strings_view(parts@)),
{
    let ghost all = strings_view(parts@);
    let mut r = String::new();
    let mut i: usize = 0;
    while i < parts.len()
        invariant
            i <= parts@.len(),
            all == strings_view(parts@),
            r@ == join_plus(all.take(i as int)),
        decreases parts.len() - i,
    {
        proof {
            assert(all.take(i + 1).drop_last() =~= all.take(i as int));
            assert(all.take(i + 1).last() == parts@[i as int]@);
        }
        if i > 0 {
            r.append(" + ");
        }
        r.append(parts[i].as_str());
        proof {
            if i == 0 {
                assert(r@ =~= join_plus(all.take(1)));
            } else {
                assert(r@ =~= join_plus(all.take(i + 1)));
            }
        }
        i = i + 1;
    }
    assert(all.take(parts@.len() as int) =~= all);
    r
}

/// How one canon of a scope is named.
fn scope_label(scope: &CanonScope) -> (r: String)
    ensures
        r@ == scope_label_spec(scope@),
{
    let label = scope.canon.label();
    match &scope.books {
        BookScope::All => String::from_str(label),
        BookScope::Selected(books) => {
            if books.len() == 0 {
                let mut r = String::from_str("No ");
                r.append(label);
                r
            } else if books.len() == 1 {
                let mut r = books[0].clone();
                r.append(" only");
                r
            } else if books.len() <= 3 {
                join_strings(books)
            } else {
                let mut r = u64_to_decimal(books.len() as u64);
                r.append(" ");
                r.append(label);
                r.append(" books");
                r
            }
        },
    }
}

impl GameSettings {
    /// How the chosen scope is named on the setup screen.
    pub fn selection_label(&self) -> (r: String)
        requires
            label_counts_books(self.scope@) ==> selected_books_total(self.scope@) <= usize::MAX,
        ensures
            r@ == selection_label_spec(self.scope@),
    {
        let ghost sv = self.scope@;
        if self.scope.canons.len() == 0 {
            return String::from_str("No scope selected");
        }
        let modes = GameMode::all();
        let mut m: usize = 0;
        while m < 4
            invariant
                m <= 4,
                modes@ == game_mode_order(),
                sv == self.scope@,
                forall|j: int| 0 <= j < m ==> game_mode_scope(#[trigger] modes@[j]) != sv,
            decreases 4 - m,
        {
            let preset = modes[m].scope();
            if preset.same_as(&self.scope) {
                assert(preset_index(sv) == m);
                return String::from_str(modes[m].label());
            }
            m = m + 1;
        }
        assert(preset_index(sv) == -1);
        let mut parts: Vec<String> = Vec::new();
        let mut i: usize = 0;
        while i < self.scope.canons.len()
            invariant
                i <= self.scope.canons@.len(),
                sv == self.scope@,
                strings_view(parts@) == scope_labels(sv).take(i as int),
            decreases self.scope.canons.len() - i,
        {
            let ghost before = strings_view(parts@);
            let part = scope_label(&self.scope.canons[i]);
            assert(sv[i as int] == self.scope.canons@[i as int]@);
            assert(scope_labels(sv)[i as int] == part@);
            parts.push(part);
            assert(strings_view(parts@) =~= before.push(part@));
            assert(scope_labels(sv).take(i + 1) =~= scope_labels(sv).take(i as int).push(part@));
            i = i + 1;
        }
        assert(scope_labels(sv).take(i as int) =~= scope_labels(sv));
        assert(parts@.len() == sv.len());
        if self.scope.canons.len() == 1 {
            assert(strings_view(parts@)[0] == parts@[0]@);
            assert(parts@[0]@ == scope_labels(sv)[0]);
            return parts[0].clone();
        }
        if parts.len() <= 3 {
            let mut short = true;
            let mut k: usize = 0;
            while k < parts.len()
                invariant
                    k <= parts@.len(),
                    strings_view(parts@) == scope_labels(sv),
                    short == forall|j: int| 0 <= j < k ==> vstd::utf8::encode_utf8(#[trigger] scope_labels(sv)[j]).len() <= 24,
                decreases parts.len() - k,
            {
                assert(strings_view(parts@)[k as int] == parts@[k as int]@);
                assert(parts@[k as int]@ == scope_labels(sv)[k as int]);
                proof {
                    lemma_utf8_len_bounds(parts@[k as int]@);
                }
                let char_count = crate::text::chars_of(parts[k].as_str()).len();
                if char_count > 24 || parts[k].as_str().len() > 24 {
                    short = false;
                }
                k = k + 1;
            }
            if short {
                return join_strings(&parts);
            }
        }
        assert(!names_each_canon(sv));
        let mut selected: usize = 0;
        let mut full: usize = 0;
        let mut c: usize = 0;
        while c < self.scope.canons.len()
            invariant
                c <= self.scope.canons@.len(),
                sv == self.scope@,
                selected_books_total(sv) <= usize::MAX,
                selected == selected_books_total(sv.take(c as int)),
                full == full_canons_total(sv.take(c as int)),
                full <= c,
            decreases self.scope.canons.len() - c,
        {
            proof {
                assert(sv.take(c + 1).drop_last() =~= sv.take(c as int));
                assert(sv.take(c + 1).last() == self.scope.canons@[c as int]@);
                lemma_selected_total_prefix(sv, c + 1);
            }
            match &self.scope.canons[c].books {
                BookScope::All => {
                    full = full + 1;
                },
                BookScope::Selected(books) => {
                    selected = selected + books.len();
                },
            }
            c = c + 1;
        }
        assert(sv.take(c as int) =~= sv);
        let mut r = String::from_str("Custom: ");
        if selected > 0 && full > 0 {
            r.append(u64_to_decimal(selected as u64).as_str());
            r.append(" books + ");
            r.append(u64_to_decimal(full as u64).as_str());
            r.append(" full canons");
        } else if selected > 0 {
            r.append(u64_to_decimal(selected as u64).as_str());
            r.append(" books across ");
            r.append(u64_to_decimal(self.scope.canons.len() as u64).as_str());
            r.append(" canons");
        } else {
            r.append(u64_to_decimal(self.scope.canons.len() as u64).as_str());
            r.append(" canons");
        }
        r
    }
}

proof fn lemma_selected_total_prefix(scope: Seq<(Canon, BookSelection)>, k: int)
    requires
        0 <= k <= scope.len(),
    ensures
        selected_books_total(scope.take(k)) <= selected_books_total(scope),
    decreases scope.len() - k,
{
    if k < scope.len() {
        assert(scope.drop_last().take(k) =~= scope.take(k));
        lemma_selected_total_prefix(scope.drop_last(), k);
    } else {
        assert(scope.take(k) =~= scope);
    }
}

/// A text takes at least one and at most four bytes per character in UTF-8.
proof fn lemma_utf8_len_bounds(s: Seq<char>)
    ensures
        s.len() <= vstd::utf8::encode_utf8(s).len() <= 4 * s.len(),
    decreases s.len(),
{
    if s.len() > 0 {
        lemma_utf8_len_bounds(s.drop_first());
        let n = vstd::utf8::encode_scalar(s[0] as u32).len();
        assert(1 <= n <= 4);
    }
}

/// Taking the steps that offer a single option twice changes nothing the second time.
pub proof fn lemma_advance_idempotent(g: Game, p: PathView)
    ensures
        advance_spec(g, advance_spec(g, p)) == advance_spec(g, p),
{
}

/// Saving a study set keeps the saved ids distinct.
pub proof fn lemma_saved_ids_distinct(before: Seq<StudySet>, after: Seq<StudySet>, id: Seq<char>)
    requires
        set_ids(before).no_duplicates(),
        !set_ids(before).contains(id),
        after.len() == before.len() + 1,
        after.drop_last() == before,
        after.last().id@ == id,
    ensures
        set_ids(after).no_duplicates(),
{
    assert forall|a: int, b: int| 0 <= a < b < set_ids(after).len() implies set_ids(after)[a] != set_ids(after)[b] by {
        if b == after.len() - 1 {
            assert(set_ids(after)[a] == set_ids(before)[a]);
            assert(set_ids(before).contains(set_ids(before)[a]));
        } else {
            assert(set_ids(after)[a] == set_ids(before)[a]);
            assert(set_ids(after)[b] == set_ids(before)[b]);
        }
    }
}


/// Whether a statistics entry is what round `k` records: the book of its answer, the points
/// its guess scored, out of the most a round can score.
pub open spec fn recorded_from(rounds: Seq<Round>, entry: (Seq<char>, u32, u32), k: int) -> bool {
    &&& 0 <= k < rounds.len()
    &&& rounds[k].guess matches Some(g)
    &&& entry == (g.answer.book@, g.score.points, MAX_SCORE)
}

/// Whether some round records a statistics entry.
pub open spec fn recorded_by_some_round(rounds: Seq<Round>, entry: (Seq<char>, u32, u32)) -> bool {
    exists|k: int| recorded_from(rounds, entry, k)
}

/// Each round recorded for a finished game comes from a guessed round: under the book of
/// that round's answer, with the points it scored out of the most a round can score.
pub proof fn lemma_finished_rounds_by_answer(rounds: Seq<Round>)
    ensures
        forall|i: int| 0 <= i < finished_rounds(rounds).len()
            ==> recorded_by_some_round(rounds, #[trigger] finished_rounds(rounds)[i]),
        finished_rounds(rounds).len() <= rounds.len(),
    decreases rounds.len(),
{
    if rounds.len() > 0 {
        let t = rounds.drop_last();
        lemma_finished_rounds_by_answer(t);
        let f = finished_rounds(rounds);
        let ft = finished_rounds(t);
        assert forall|i: int| 0 <= i < f.len() implies recorded_by_some_round(rounds, #[trigger] f[i]) by {
            match rounds.last().guess {
                Some(g) => assert(f == ft.push((g.answer.book@, g.score.points, MAX_SCORE))),
                None => assert(f == ft),
            }
            if i < ft.len() {
                assert(f[i] == ft[i]);
                assert(recorded_by_some_round(t, ft[i]));
                let k = choose|k: int| recorded_from(t, ft[i], k);
                assert(rounds[k] == t[k]);
                assert(recorded_from(rounds, f[i], k));
            } else {
                assert(rounds[rounds.len() - 1] == rounds.last());
                assert(recorded_from(rounds, f[i], rounds.len() - 1));
            }
        }
    } else {
        assert(finished_rounds(rounds) =~= Seq::<(Seq<char>, u32, u32)>::empty());
    }
}

/// What a finished game records of its rounds does not depend on the books and chapters that
/// were guessed: rounds with the same answers and scores, guessed alike, record alike.
pub proof fn lemma_finished_rounds_ignore_guesses(a: Seq<Round>, b: Seq<Round>)
    requires
        a.len() == b.len(),
        forall|k: int| 0 <= k < a.len() ==> match (#[trigger] a[k].guess, b[k].guess) {
            (Some(x), Some(y)) => x.answer.book@ == y.answer.book@ && x.score.points == y.score.points,
            (None, None) => true,
            _ => false,
        },
    ensures
        finished_rounds(a) == finished_rounds(b),
    decreases a.len(),
{
    if a.len() > 0 {
        assert forall|k: int| 0 <= k < a.len() - 1 implies match (#[trigger] a.drop_last()[k].guess, b.drop_last()[k].guess) {
            (Some(x), Some(y)) => x.answer.book@ == y.answer.book@ && x.score.points == y.score.points,
            (None, None) => true,
            _ => false,
        } by {
            assert(a.drop_last()[k] == a[k] && b.drop_last()[k] == b[k]);
        }
        lemma_finished_rounds_ignore_guesses(a.drop_last(), b.drop_last());
        assert(a.last() == a[a.len() - 1] && b.last() == b[b.len() - 1]);
    }
}


/// Choosing a canon puts it on the guess path; choosing a different canon than the one on
/// the path leaves no book or chapter on it but those taken by themselves as the single
/// options of the new canon (its one book in scope, and that book's one chapter).
pub proof fn lemma_select_canon_path(g: Game, canon: Canon)
    ensures
        advance_spec(g, canon_chosen(g.path(), canon)).canon == Some(canon),
        g.path().canon != Some(canon) ==> {
            let after = advance_spec(g, canon_chosen(g.path(), canon));
            &&& after.book matches Some(b) ==> books_for_spec(g, canon).len() == 1 && b == books_for_spec(g, canon)[0].0
            &&& after.chapter matches Some(c) ==> (after.book matches Some(b)
                && chapters_for_spec(g, canon, b).len() == 1 && c == chapters_for_spec(g, canon, b)[0])
        },
{
}

} // verus!
