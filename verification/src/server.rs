use vstd::prelude::*;

use crate::api::{
    AdvanceGameResponse, CanonMetadata, ChapterVerse, GameSnapshotResponse, SnapshotRound, GuessReference, GuessRequest, GuessResponse, MetadataRequest, MetadataResponse,
    NewGameRequest, NewGameResponse, RoundPrompt,
};
use crate::scriptures::{
    books_view, copy_books, scope_includes_book, verses_in_selection, BookSelection, Canon,
    Difficulty, GameScope, RefView, ScriptureLibrary, Scriptures, Verse, find_verse, passage_text,
    lemma_passage_text_found, in_chapter_of, score_spec, scope_chapter_total, library_consistent, lemma_verse_is_placed,
    lemma_exact_guess_gets_max, lemma_find_verse, lemma_pool_nonempty, scope_position, lemma_scope_position,
};
use crate::study_sets::{
    passages_contain, passages_view, shows_whole_passage_spec, PassageView, PromptPolicy, StudyPassage,
};
use crate::randomness::{random_index, random_u64, shuffle_indices};
use crate::scoring::{Score, MAX_SCORE};
use crate::text::{decimal, u64_to_decimal};
use rand::rngs::SmallRng;

verus! {

/// The most rounds a game may have.
pub const MAX_GAME_ROUNDS: usize = 1000;

/// The most passages a study game may list.
pub const MAX_STUDY_PASSAGES: usize = 2000;

/// The most verses a study passage may list.
pub const MAX_VERSES_PER_PASSAGE: usize = 200;

/// How a refused request is answered.
#[derive(Clone, Copy, Debug, PartialEq, Eq, Structural)]
pub enum ErrorStatus {
    BadRequest,
    NotFound,
}

/// A refused request: its status and the message shown to the player.
#[derive(Clone, Debug, PartialEq)]
pub struct ApiError {
    pub status: ErrorStatus,
    pub message: String,
}

impl ApiError {
    pub fn bad_request(message: &str) -> (r: ApiError)
        ensures
            r.status == ErrorStatus::BadRequest,
            r.message@ == message@,
    {
        ApiError { status: ErrorStatus::BadRequest, message: String::from_str(message) }
    }

    pub fn not_found(message: &str) -> (r: ApiError)
        ensures
            r.status == ErrorStatus::NotFound,
            r.message@ == message@,
    {
        ApiError { status: ErrorStatus::NotFound, message: String::from_str(message) }
    }
}

/// Whether a result is a refusal with this status and message.
pub open spec fn refused<T>(r: Result<T, ApiError>, status: ErrorStatus, message: Seq<char>) -> bool {
    r matches Err(e) && e.status == status && e.message@ == message
}

/// The answer to one round of a game held by the server.
#[derive(Clone, Debug, PartialEq)]
pub struct RoundAnswer {
    pub passage: StudyPassage,
    pub source_passage: StudyPassage,
    pub text: String,
}

impl RoundAnswer {
    /// The answer for a round drawn from a single verse.
    pub fn from_verse(verse: Verse) -> (r: RoundAnswer)
        ensures
            r.passage@ == (PassageView {
                canon: verse.reference.canon,
                book: verse.reference.book@,
                chapter: verse.reference.chapter,
                verses: seq![verse.reference.verse],
            }),
            r.source_passage@ == r.passage@,
            r.text@ == verse.text@,
    {
        let passage = StudyPassage::single(&verse.reference);
        RoundAnswer { source_passage: passage.copy(), passage, text: verse.text }
    }

    pub fn copy(&self) -> (r: RoundAnswer)
        ensures
            r.passage@ == self.passage@,
            r.source_passage@ == self.source_passage@,
            r.text@ == self.text@,
    {
        RoundAnswer { passage: self.passage.copy(), source_passage: self.source_passage.copy(), text: self.text.clone() }
    }
}

/// How far a stored game has come: its difficulty, the verse count it was started with, the
/// round in play (the round count once finished) and the guess made on each round.
#[derive(Clone, Debug, PartialEq)]
pub struct GameProgress {
    pub difficulty: Difficulty,
    pub playable_verse_count: usize,
    pub current_round_index: usize,
    pub guesses: Vec<Option<GuessRequest>>,
}

pub open spec fn guess_request_view(r: GuessRequest) -> (usize, Canon, Seq<char>, u16) {
    (r.round_index, r.canon, r.book@, r.chapter)
}

pub open spec fn guesses_view(v: Seq<Option<GuessRequest>>) -> Seq<Option<(usize, Canon, Seq<char>, u16)>> {
    v.map_values(|o: Option<GuessRequest>| match o {
        Some(r) => Some(guess_request_view(r)),
        None => None,
    })
}

impl GameProgress {
    /// The progress of a game just started: first round, nothing guessed.
    pub fn fresh(difficulty: Difficulty, playable_verse_count: usize, round_count: usize) -> (r: GameProgress)
        ensures
            r.difficulty == difficulty,
            r.playable_verse_count == playable_verse_count,
            r.current_round_index == 0,
            r.guesses@.len() == round_count,
            forall|k: int| 0 <= k < round_count ==> (#[trigger] r.guesses@[k]) is None,
    {
        let mut guesses: Vec<Option<GuessRequest>> = Vec::new();
        let mut k: usize = 0;
        while k < round_count
            invariant
                k <= round_count,
                guesses@.len() == k,
                forall|j: int| 0 <= j < k ==> (#[trigger] guesses@[j]) is None,
            decreases round_count - k,
        {
            guesses.push(None);
            k = k + 1;
        }
        GameProgress { difficulty, playable_verse_count, current_round_index: 0, guesses }
    }
}

/// A game the server holds: its scope, its answers, when it was last used (nanoseconds since
/// the Unix epoch) and how far it has come.
#[derive(Clone, Debug, PartialEq)]
pub struct ServerGame {
    pub scope: GameScope,
    pub rounds: Vec<RoundAnswer>,
    pub last_seen_at: u128,
    pub progress: GameProgress,
}

/// The games the server holds, by id.
#[derive(Clone, Debug, PartialEq)]
pub struct GameStore {
    pub games: Vec<(String, ServerGame)>,
}

/// The position of the first game with an id, or -1.
pub open spec fn game_position(games: Seq<(String, ServerGame)>, id: Seq<char>) -> int
    decreases games.len(),
{
    if games.len() == 0 {
        -1
    } else if games[0].0@ == id {
        0
    } else {
        let rest = game_position(games.drop_first(), id);
        if rest == -1 { -1 } else { rest + 1 }
    }
}

proof fn lemma_game_position(games: Seq<(String, ServerGame)>, id: Seq<char>)
    ensures
        -1 <= game_position(games, id) < games.len(),
        game_position(games, id) != -1 ==> games[game_position(games, id)].0@ == id,
        game_position(games, id) == -1 <==> forall|j: int| 0 <= j < games.len() ==> games[j].0@ != id,
        forall|j: int| 0 <= j < game_position(games, id) ==> games[j].0@ != id,
    decreases games.len(),
{
    if games.len() > 0 {
        lemma_game_position(games.drop_first(), id);
        assert forall|j: int| 1 <= j < games.len() implies games[j] == games.drop_first()[j - 1] by {}
    }
}

/// The games with an entry stored: in place of the first game under its id, or last.
pub open spec fn store_insert(games: Seq<(String, ServerGame)>, entry: (String, ServerGame)) -> Seq<(String, ServerGame)> {
    let i = game_position(games, entry.0@);
    if i == -1 { games.push(entry) } else { games.update(i, entry) }
}

/// After an entry is stored, its id finds that entry.
pub proof fn lemma_store_insert(games: Seq<(String, ServerGame)>, entry: (String, ServerGame))
    ensures
        game_position(store_insert(games, entry), entry.0@) != -1,
        stored_entry(store_insert(games, entry), entry.0@) == entry,
{
    let after = store_insert(games, entry);
    let id = entry.0@;
    lemma_game_position(games, id);
    lemma_game_position(after, id);
    let t = if game_position(games, id) == -1 { games.len() as int } else { game_position(games, id) };
    assert(after[t] == entry);
    assert forall|j: int| 0 <= j < t implies after[j].0@ != id by {
        assert(after[j] == games[j]);
    }
    let p = game_position(after, id);
    assert(p != -1);
    if p < t {
        assert(after[p].0@ != id);
    }
    if p > t {
        assert(after[t].0@ == id);
    }
    assert(p == t);
}

/// The entry stored under an id.
pub open spec fn stored_entry(games: Seq<(String, ServerGame)>, id: Seq<char>) -> (String, ServerGame) {
    games[game_position(games, id)]
}

/// Whether a game was seen at or after a cutoff.
pub open spec fn seen_since(g: (String, ServerGame), cutoff: u128) -> bool {
    g.1.last_seen_at >= cutoff
}

impl GameStore {
    pub fn new() -> (r: GameStore)
        ensures
            r.games@.len() == 0,
    {
        GameStore { games: Vec::new() }
    }

    fn position(&self, id: &str) -> (r: Option<usize>)
        ensures
            match r {
                Some(i) => game_position(self.games@, id@) == i as int,
                None => game_position(self.games@, id@) == -1,
            },
    {
        proof {
            lemma_game_position(self.games@, id@);
        }
        let mut i: usize = 0;
        while i < self.games.len()
            invariant
                i <= self.games.len(),
                forall|j: int| 0 <= j < i ==> self.games@[j].0@ != id@,
                -1 <= game_position(self.games@, id@) < self.games@.len(),
                game_position(self.games@, id@) != -1 ==> self.games@[game_position(self.games@, id@)].0@ == id@,
                game_position(self.games@, id@) == -1 <==> forall|j: int| 0 <= j < self.games@.len() ==> self.games@[j].0@ != id@,
                forall|j: int| 0 <= j < game_position(self.games@, id@) ==> self.games@[j].0@ != id@,
            decreases self.games.len() - i,
        {
            if crate::text::str_equal(self.games[i].0.as_str(), id) {
                return Some(i);
            }
            i = i + 1;
        }
        None
    }

    /// Stores a game under an id, replacing any game stored under it.
    pub fn insert(&mut self, id: String, game: ServerGame)
        ensures
            final(self).games@ == store_insert(old(self).games@, (id, game)),
    {
        proof {
            lemma_game_position(self.games@, id@);
        }
        match self.position(id.as_str()) {
            Some(i) => {
                self.games.set(i, (id, game));
            },
            None => {
                self.games.push((id, game));
            },
        }
    }

    /// The game stored under an id.
    pub fn get(&self, id: &str) -> (r: Option<&ServerGame>)
        ensures
            match r {
                Some(g) => game_position(self.games@, id@) != -1 && *g == self.games@[game_position(self.games@, id@)].1,
                None => game_position(self.games@, id@) == -1,
            },
    {
        proof {
            lemma_game_position(self.games@, id@);
        }
        match self.position(id) {
            Some(i) => Some(&self.games[i].1),
            None => None,
        }
    }

    /// Marks the game at a position as seen at `now`.
    fn touch(&mut self, i: usize, now: u128)
        requires
            i < old(self).games@.len(),
        ensures
            final(self).games@ == old(self).games@.update(
                i as int,
                (old(self).games@[i as int].0, (ServerGame {
                    scope: old(self).games@[i as int].1.scope,
                    rounds: old(self).games@[i as int].1.rounds,
                    last_seen_at: now,
                    progress: old(self).games@[i as int].1.progress,
                })),
            ),
    {
        let (id, game) = self.games.remove(i);
        let ServerGame { scope, rounds, last_seen_at: _, progress } = game;
        self.games.insert(i, (id, ServerGame { scope, rounds, last_seen_at: now, progress }));
        assert(self.games@ =~= old(self).games@.update(
            i as int,
            (old(self).games@[i as int].0, (ServerGame {
                scope: old(self).games@[i as int].1.scope,
                rounds: old(self).games@[i as int].1.rounds,
                last_seen_at: now,
                progress: old(self).games@[i as int].1.progress,
            })),
        ));
    }

    /// Forgets every game last seen before `cutoff`.
    pub fn prune(&mut self, cutoff: u128)
        ensures
            final(self).games@ == old(self).games@.filter(|g: (String, ServerGame)| seen_since(g, cutoff)),
    {
        let ghost orig = self.games@;
        let ghost keep = |g: (String, ServerGame)| seen_since(g, cutoff);
        let mut i: usize = 0;
        let ghost mut j: int = 0;
        assert(orig.skip(0) =~= orig);
        assert(orig.take(0).filter(keep) =~= Seq::<(String, ServerGame)>::empty());
        assert(self.games@ =~= orig.take(0).filter(keep) + orig.skip(0));
        while i < self.games.len()
            invariant
                0 <= j <= orig.len(),
                keep == (|g: (String, ServerGame)| seen_since(g, cutoff)),
                i == orig.take(j).filter(keep).len(),
                self.games@ == orig.take(j).filter(keep) + orig.skip(j),
            decreases orig.len() - j,
        {
            proof {
                assert(self.games@[i as int] == orig[j]);
                assert(orig.take(j + 1) =~= orig.take(j).push(orig[j]));
                orig.take(j).lemma_filter_push(orig[j], keep);
                assert(orig.skip(j).drop_first() =~= orig.skip(j + 1));
            }
            if self.games[i].1.last_seen_at >= cutoff {
                assert(self.games@ =~= orig.take(j + 1).filter(keep) + orig.skip(j + 1));
                i = i + 1;
            } else {
                self.games.remove(i);
                assert(self.games@ =~= orig.take(j + 1).filter(keep) + orig.skip(j + 1));
            }
            proof {
                j = j + 1;
            }
        }
        proof {
            orig.take(j).lemma_filter_len(keep);
            assert(orig.skip(j).len() == 0);
            assert(j == orig.len());
            assert(orig.take(j) =~= orig);
            assert(self.games@ =~= orig.filter(keep));
        }
    }
}

/// The games seen within `ttl` nanoseconds of `now` (a cutoff before the epoch counts as the epoch).
pub open spec fn pruned_games(games: Seq<(String, ServerGame)>, now: u128, ttl: u128) -> Seq<(String, ServerGame)> {
    games.filter(|g: (String, ServerGame)| seen_since(g, if now >= ttl { (now - ttl) as u128 } else { 0 }))
}

/// Forgets the games not seen within `ttl` nanoseconds of `now`.
pub fn prune_games(store: &mut GameStore, now: u128, ttl: u128)
    ensures
        final(store).games@ == pruned_games(old(store).games@, now, ttl),
{
    let cutoff = match now.checked_sub(ttl) {
        Some(c) => c,
        None => 0,
    };
    store.prune(cutoff);
}

/// The message that refuses a game's basics, if any.
pub open spec fn game_basics_problem(round_count: usize, scope: Seq<(Canon, BookSelection)>) -> Option<Seq<char>> {
    if scope.len() == 0 || round_count == 0 {
        Some("Game must include rounds and scope"@)
    } else if round_count > MAX_GAME_ROUNDS {
        Some("Too many rounds requested"@)
    } else {
        None
    }
}

pub fn validate_game_basics(round_count: usize, scope: &GameScope) -> (r: Result<(), ApiError>)
    ensures
        match game_basics_problem(round_count, scope@) {
            None => r is Ok,
            Some(m) => refused(r, ErrorStatus::BadRequest, m),
        },
{
    if scope.canons.len() == 0 || round_count == 0 {
        return Err(ApiError::bad_request("Game must include rounds and scope"));
    }
    if round_count > MAX_GAME_ROUNDS {
        return Err(ApiError::bad_request("Too many rounds requested"));
    }
    Ok(())
}

/// Whether the library holds every verse of a passage.
pub open spec fn passage_exists(lib: ScriptureLibrary, p: PassageView) -> bool {
    match lib.lookup(p.canon) {
        Some(s) => forall|k: int| 0 <= k < p.verses.len() ==> find_verse(s.verse_list(), p.book, p.chapter, #[trigger] p.verses[k]) != -1,
        None => false,
    }
}

/// The message that refuses one study passage, if any.
pub open spec fn passage_problem(lib: ScriptureLibrary, scope: Seq<(Canon, BookSelection)>, p: PassageView) -> Option<Seq<char>> {
    if !scope_includes_book(scope, p.canon, p.book) {
        Some("Study passage is outside the game scope"@)
    } else if p.verses.len() == 0 || p.verses.len() > MAX_VERSES_PER_PASSAGE {
        Some("Study passage has an invalid verse count"@)
    } else if !passage_exists(lib, p) {
        Some("Study passage was not found"@)
    } else {
        None
    }
}

/// The message that refuses the first refused passage of a list, if any.
pub open spec fn first_passage_problem(lib: ScriptureLibrary, scope: Seq<(Canon, BookSelection)>, ps: Seq<PassageView>) -> Option<Seq<char>>
    decreases ps.len(),
{
    if ps.len() == 0 {
        None
    } else {
        match passage_problem(lib, scope, ps[0]) {
            Some(m) => Some(m),
            None => first_passage_problem(lib, scope, ps.drop_first()),
        }
    }
}

/// The message that refuses the passages of a study game, if any.
pub open spec fn study_passages_problem(lib: ScriptureLibrary, scope: Seq<(Canon, BookSelection)>, ps: Seq<PassageView>) -> Option<Seq<char>> {
    if ps.len() == 0 {
        Some("Study game must include passages"@)
    } else if ps.len() > MAX_STUDY_PASSAGES {
        Some("Too many study passages"@)
    } else {
        first_passage_problem(lib, scope, ps)
    }
}

fn passage_found(library: &ScriptureLibrary, passage: &StudyPassage) -> (r: bool)
    ensures
        r == passage_exists(*library, passage@),
{
    match library.scriptures(passage.canon) {
        Some(scriptures) => {
            let r = scriptures.contains_passage(passage.book.as_str(), passage.chapter, &passage.verses);
            proof {
                let p = passage@;
                assert(p.verses == passage.verses@ && p.book == passage.book@ && p.chapter == passage.chapter);
                if r {
                    assert forall|k: int| 0 <= k < p.verses.len() implies find_verse(scriptures.verse_list(), p.book, p.chapter, #[trigger] p.verses[k]) != -1 by {
                        assert(passage.verses@[k] == p.verses[k]);
                    }
                } else {
                    let k = choose|k: int| 0 <= k < passage.verses@.len() && !(find_verse(scriptures.verse_list(), passage.book@, passage.chapter, #[trigger] passage.verses@[k]) != -1);
                    assert(p.verses[k] == passage.verses@[k]);
                }
            }
            r
        },
        None => false,
    }
}

pub fn validate_study_passages(library: &ScriptureLibrary, scope: &GameScope, passages: &Vec<StudyPassage>) -> (r: Result<(), ApiError>)
    ensures
        match study_passages_problem(*library, scope@, passages_view(passages@)) {
            None => r is Ok,
            Some(m) => refused(r, ErrorStatus::BadRequest, m),
        },
{
    if passages.len() == 0 {
        return Err(ApiError::bad_request("Study game must include passages"));
    }
    if passages.len() > MAX_STUDY_PASSAGES {
        return Err(ApiError::bad_request("Too many study passages"));
    }
    let ghost ps = passages_view(passages@);
    let mut i: usize = 0;
    assert(ps.skip(0) =~= ps);
    while i < passages.len()
        invariant
            i <= passages.len(),
            ps == passages_view(passages@),
            0 < passages.len() <= MAX_STUDY_PASSAGES,
            first_passage_problem(*library, scope@, ps) == first_passage_problem(*library, scope@, ps.skip(i as int)),
        decreases passages.len() - i,
    {
        let ghost rest = ps.skip(i as int);
        assert(rest[0] == passages@[i as int]@);
        assert(rest.drop_first() =~= ps.skip(i + 1));
        let passage = &passages[i];
        if !scope.includes_book(passage.canon, passage.book.as_str()) {
            return Err(ApiError::bad_request("Study passage is outside the game scope"));
        }
        if passage.verses.len() == 0 || passage.verses.len() > MAX_VERSES_PER_PASSAGE {
            return Err(ApiError::bad_request("Study passage has an invalid verse count"));
        }
        if !passage_found(library, passage) {
            return Err(ApiError::bad_request("Study passage was not found"));
        }
        i = i + 1;
    }
    assert(ps.skip(passages.len() as int).len() == 0);
    Ok(())
}

/// The metadata of one canon in play: its books and its verse counts within the selection.
pub open spec fn canon_metadata_spec(s: Scriptures, canon: Canon, sel: BookSelection, d: Difficulty)
    -> (Canon, Seq<(Seq<char>, Seq<u16>)>, int, int) {
    (canon, s.book_list(), verses_in_selection(s.pool_view(d), sel).len() as int, verses_in_selection(s.verse_list(), sel).len() as int)
}

/// The metadata of every loaded canon of a scope, in scope order.
pub open spec fn metadata_spec(lib: ScriptureLibrary, d: Difficulty, scope: Seq<(Canon, BookSelection)>)
    -> Seq<(Canon, Seq<(Seq<char>, Seq<u16>)>, int, int)>
    decreases scope.len(),
{
    if scope.len() == 0 {
        Seq::empty()
    } else {
        let before = metadata_spec(lib, d, scope.drop_last());
        match lib.lookup(scope.last().0) {
            Some(s) => before.push(canon_metadata_spec(s, scope.last().0, scope.last().1, d)),
            None => before,
        }
    }
}

pub open spec fn metadata_view(v: Seq<CanonMetadata>) -> Seq<(Canon, Seq<(Seq<char>, Seq<u16>)>, int, int)> {
    v.map_values(|m: CanonMetadata| (m.canon, books_view(m.books@), m.playable_verse_count as int, m.total_verse_count as int))
}

pub fn metadata_for(library: &ScriptureLibrary, difficulty: Difficulty, scope: &GameScope) -> (r: Vec<CanonMetadata>)
    ensures
        metadata_view(r@) == metadata_spec(*library, difficulty, scope@),
{
    let ghost sv = scope@;
    let mut r: Vec<CanonMetadata> = Vec::new();
    let mut i: usize = 0;
    while i < scope.canons.len()
        invariant
            i <= scope.canons.len(),
            sv == scope@,
            metadata_view(r@) == metadata_spec(*library, difficulty, sv.take(i as int)),
        decreases scope.canons.len() - i,
    {
        proof {
            assert(sv.take(i + 1).drop_last() =~= sv.take(i as int));
            assert(sv.take(i + 1).last() == scope.canons@[i as int]@);
        }
        let canon_scope = &scope.canons[i];
        match library.scriptures(canon_scope.canon) {
            Some(scriptures) => {
                let ghost before = metadata_view(r@);
                let item = CanonMetadata {
                    canon: canon_scope.canon,
                    books: copy_books(scriptures.book_infos()),
                    playable_verse_count: scriptures.scoped_verse_count_for_difficulty(difficulty, &canon_scope.books),
                    total_verse_count: scriptures.scoped_total_verse_count(&canon_scope.books),
                };
                r.push(item);
                assert(metadata_view(r@) =~= before.push(canon_metadata_spec(*scriptures, canon_scope.canon, canon_scope.books@, difficulty)));
            },
            None => {},
        }
        i = i + 1;
    }
    assert(sv.take(scope.canons.len() as int) =~= sv);
    r
}

/// The playable verses of a scope, counted over its loaded canons.
pub open spec fn scope_playable_total(lib: ScriptureLibrary, d: Difficulty, scope: Seq<(Canon, BookSelection)>) -> nat
    decreases scope.len(),
{
    if scope.len() == 0 {
        0
    } else {
        scope_playable_total(lib, d, scope.drop_last()) + match lib.lookup(scope.last().0) {
            Some(s) => verses_in_selection(s.pool_view(d), scope.last().1).len(),
            None => 0nat,
        }
    }
}

/// All verses of a scope, counted over its loaded canons.
pub open spec fn scope_verse_total(lib: ScriptureLibrary, scope: Seq<(Canon, BookSelection)>) -> nat
    decreases scope.len(),
{
    if scope.len() == 0 {
        0
    } else {
        scope_verse_total(lib, scope.drop_last()) + match lib.lookup(scope.last().0) {
            Some(s) => verses_in_selection(s.verse_list(), scope.last().1).len(),
            None => 0nat,
        }
    }
}

proof fn lemma_playable_total_prefix(lib: ScriptureLibrary, d: Difficulty, scope: Seq<(Canon, BookSelection)>, k: int)
    requires
        0 <= k <= scope.len(),
    ensures
        scope_playable_total(lib, d, scope.take(k)) <= scope_playable_total(lib, d, scope),
    decreases scope.len() - k,
{
    if k < scope.len() {
        assert(scope.drop_last().take(k) =~= scope.take(k));
        lemma_playable_total_prefix(lib, d, scope.drop_last(), k);
    } else {
        assert(scope.take(k) =~= scope);
    }
}

proof fn lemma_verse_total_prefix(lib: ScriptureLibrary, scope: Seq<(Canon, BookSelection)>, k: int)
    requires
        0 <= k <= scope.len(),
    ensures
        scope_verse_total(lib, scope.take(k)) <= scope_verse_total(lib, scope),
    decreases scope.len() - k,
{
    if k < scope.len() {
        assert(scope.drop_last().take(k) =~= scope.take(k));
        lemma_verse_total_prefix(lib, scope.drop_last(), k);
    } else {
        assert(scope.take(k) =~= scope);
    }
}

/// How many playable verses a scope holds.
pub fn playable_verse_count(library: &ScriptureLibrary, difficulty: Difficulty, scope: &GameScope) -> (n: usize)
    requires
        scope_playable_total(*library, difficulty, scope@) <= usize::MAX,
    ensures
        n == scope_playable_total(*library, difficulty, scope@),
{
    let ghost sv = scope@;
    let mut n: usize = 0;
    let mut i: usize = 0;
    while i < scope.canons.len()
        invariant
            i <= scope.canons.len(),
            sv == scope@,
            scope_playable_total(*library, difficulty, sv) <= usize::MAX,
            n == scope_playable_total(*library, difficulty, sv.take(i as int)),
        decreases scope.canons.len() - i,
    {
        proof {
            assert(sv.take(i + 1).drop_last() =~= sv.take(i as int));
            assert(sv.take(i + 1).last() == scope.canons@[i as int]@);
            lemma_playable_total_prefix(*library, difficulty, sv, i + 1);
        }
        let canon_scope = &scope.canons[i];
        match library.scriptures(canon_scope.canon) {
            Some(scriptures) => {
                n = n + scriptures.scoped_verse_count_for_difficulty(difficulty, &canon_scope.books);
            },
            None => {},
        }
        i = i + 1;
    }
    assert(sv.take(scope.canons.len() as int) =~= sv);
    n
}

/// How many verses a scope holds in all.
pub fn total_verse_count(library: &ScriptureLibrary, scope: &GameScope) -> (n: usize)
    requires
        scope_verse_total(*library, scope@) <= usize::MAX,
    ensures
        n == scope_verse_total(*library, scope@),
{
    let ghost sv = scope@;
    let mut n: usize = 0;
    let mut i: usize = 0;
    while i < scope.canons.len()
        invariant
            i <= scope.canons.len(),
            sv == scope@,
            scope_verse_total(*library, sv) <= usize::MAX,
            n == scope_verse_total(*library, sv.take(i as int)),
        decreases scope.canons.len() - i,
    {
        proof {
            assert(sv.take(i + 1).drop_last() =~= sv.take(i as int));
            assert(sv.take(i + 1).last() == scope.canons@[i as int]@);
            lemma_verse_total_prefix(*library, sv, i + 1);
        }
        let canon_scope = &scope.canons[i];
        match library.scriptures(canon_scope.canon) {
            Some(scriptures) => {
                n = n + scriptures.scoped_total_verse_count(&canon_scope.books);
            },
            None => {},
        }
        i = i + 1;
    }
    assert(sv.take(scope.canons.len() as int) =~= sv);
    n
}

/// The verse an index picks among the playable verses of a scope, canon by canon in scope
/// order; or the message of the refusal when a canon met on the way is not loaded, or the
/// index lies past the last playable verse.
pub open spec fn verse_pick(lib: ScriptureLibrary, d: Difficulty, scope: Seq<(Canon, BookSelection)>, index: int)
    -> Result<(RefView, Seq<char>), Seq<char>>
    decreases scope.len(),
{
    if scope.len() == 0 {
        Err("No playable verses found"@)
    } else {
        match lib.lookup(scope[0].0) {
            None => Err("Unknown canon"@),
            Some(s) => {
                let pool = verses_in_selection(s.pool_view(d), scope[0].1);
                if index < pool.len() {
                    Ok(pool[index])
                } else {
                    verse_pick(lib, d, scope.drop_first(), index - pool.len())
                }
            },
        }
    }
}

/// Whether a result answers a pick: the picked verse, or the refusal that it names.
pub open spec fn answers_pick(r: Result<Verse, ApiError>, pick: Result<(RefView, Seq<char>), Seq<char>>) -> bool {
    match pick {
        Ok(v) => r matches Ok(x) && x@ == v,
        Err(m) => refused(r, ErrorStatus::BadRequest, m),
    }
}

/// Whether every canon of a scope is loaded.
pub open spec fn scope_loaded(lib: ScriptureLibrary, scope: Seq<(Canon, BookSelection)>) -> bool {
    forall|j: int| 0 <= j < scope.len() ==> (#[trigger] lib.lookup(scope[j].0)) is Some
}

/// The verse that an index picks among the playable verses of a scope.
pub fn verse_at(library: &ScriptureLibrary, difficulty: Difficulty, scope: &GameScope, index: usize) -> (r: Result<Verse, ApiError>)
    ensures
        answers_pick(r, verse_pick(*library, difficulty, scope@, index as int)),
{
    let ghost sv = scope@;
    let mut rest: usize = index;
    let mut i: usize = 0;
    assert(sv.skip(0) =~= sv);
    while i < scope.canons.len()
        invariant
            i <= scope.canons.len(),
            sv == scope@,
            verse_pick(*library, difficulty, sv, index as int) == verse_pick(*library, difficulty, sv.skip(i as int), rest as int),
        decreases scope.canons.len() - i,
    {
        let ghost tail = sv.skip(i as int);
        assert(tail[0] == scope.canons@[i as int]@);
        assert(tail.drop_first() =~= sv.skip(i + 1));
        let canon_scope = &scope.canons[i];
        let scriptures = match library.scriptures(canon_scope.canon) {
            Some(s) => s,
            None => {
                return Err(ApiError::bad_request("Unknown canon"));
            },
        };
        let count = scriptures.scoped_verse_count_for_difficulty(difficulty, &canon_scope.books);
        if rest < count {
            return match scriptures.scoped_verse_for_difficulty(difficulty, &canon_scope.books, rest) {
                Some(v) => Ok(v),
                None => Err(ApiError::bad_request("No playable verses found")),
            };
        }
        rest = rest - count;
        i = i + 1;
    }
    assert(sv.skip(i as int).len() == 0);
    Err(ApiError::bad_request("No playable verses found"))
}

/// A verse drawn at random among the playable verses of a scope.
pub fn random_verse(
    library: &ScriptureLibrary,
    difficulty: Difficulty,
    scope: &GameScope,
    playable_count: usize,
    rng: &mut SmallRng,
) -> (r: Result<Verse, ApiError>)
    requires
        playable_count > 0,
    ensures
        exists|i: int| 0 <= i < playable_count && answers_pick(r, #[trigger] verse_pick(*library, difficulty, scope@, i)),
{
    let index = random_index(rng, playable_count);
    let r = verse_at(library, difficulty, scope, index);
    assert(answers_pick(r, verse_pick(*library, difficulty, scope@, index as int)));
    r
}

/// Counting the playable verses of a scope from its first canon.
proof fn lemma_playable_total_first(lib: ScriptureLibrary, d: Difficulty, scope: Seq<(Canon, BookSelection)>)
    requires
        scope.len() > 0,
    ensures
        scope_playable_total(lib, d, scope) == scope_playable_total(lib, d, scope.drop_first()) + match lib.lookup(scope[0].0) {
            Some(s) => verses_in_selection(s.pool_view(d), scope[0].1).len(),
            None => 0nat,
        },
    decreases scope.len(),
{
    if scope.len() > 1 {
        lemma_playable_total_first(lib, d, scope.drop_last());
        assert(scope.drop_last().drop_first() =~= scope.drop_first().drop_last());
        assert(scope.drop_last()[0] == scope[0]);
        assert(scope.drop_first().last() == scope.last());
        assert(scope.drop_first().len() > 0);
    } else {
        assert(scope.drop_last().len() == 0);
        assert(scope.drop_first().len() == 0);
        assert(scope.last() == scope[0]);
        assert(scope_playable_total(lib, d, scope.drop_last()) == 0);
        assert(scope_playable_total(lib, d, scope.drop_first()) == 0);
    }
}

/// Every index below the number of playable verses of a fully loaded scope picks a verse,
/// and the picked verse lies in a book that the scope selects.
pub proof fn lemma_pick_in_scope(lib: ScriptureLibrary, d: Difficulty, scope: Seq<(Canon, BookSelection)>, index: int)
    requires
        scope_loaded(lib, scope),
        0 <= index < scope_playable_total(lib, d, scope),
    ensures
        verse_pick(lib, d, scope, index) matches Ok(v) && exists|j: int| 0 <= j < scope.len()
            && (#[trigger] scope[j]).1.includes(v.0.book)
            && verses_in_selection(lib.lookup(scope[j].0).unwrap().pool_view(d), scope[j].1).contains(v),
    decreases scope.len(),
{
    lemma_playable_total_first(lib, d, scope);
    assert(lib.lookup(scope[0].0) is Some);
    let s = lib.lookup(scope[0].0).unwrap();
    let pool = verses_in_selection(s.pool_view(d), scope[0].1);
    if index < pool.len() {
        let keep = |v: (RefView, Seq<char>)| scope[0].1.includes(v.0.book);
        assert(pool.contains(pool[index]));
        assert(keep(pool[index]));
    } else {
        let rest = scope.drop_first();
        assert forall|j: int| 0 <= j < rest.len() implies (#[trigger] lib.lookup(rest[j].0)) is Some by {
            assert(rest[j] == scope[j + 1]);
        }
        lemma_pick_in_scope(lib, d, rest, index - pool.len());
        let v = verse_pick(lib, d, rest, index - pool.len())->Ok_0;
        let j = choose|j: int| 0 <= j < rest.len() && (#[trigger] rest[j]).1.includes(v.0.book)
            && verses_in_selection(lib.lookup(rest[j].0).unwrap().pool_view(d), rest[j].1).contains(v);
        assert(rest[j] == scope[j + 1]);
    }
}

/// The passages of a list, each kept at its first occurrence only.
pub open spec fn distinct_spec(ps: Seq<PassageView>) -> Seq<PassageView>
    decreases ps.len(),
{
    if ps.len() == 0 {
        Seq::empty()
    } else {
        let d = distinct_spec(ps.drop_last());
        if d.contains(ps.last()) { d } else { d.push(ps.last()) }
    }
}

/// Keeping first occurrences leaves each passage once and loses none.
pub proof fn lemma_distinct(ps: Seq<PassageView>)
    ensures
        distinct_spec(ps).no_duplicates(),
        forall|x: PassageView| distinct_spec(ps).contains(x) <==> ps.contains(x),
        distinct_spec(ps).len() <= ps.len(),
    decreases ps.len(),
{
    if ps.len() > 0 {
        lemma_distinct(ps.drop_last());
        let d = distinct_spec(ps.drop_last());
        assert forall|x: PassageView| distinct_spec(ps).contains(x) <==> ps.contains(x) by {
            if ps.contains(x) {
                let k = choose|k: int| 0 <= k < ps.len() && ps[k] == x;
                if k < ps.len() - 1 {
                    assert(ps.drop_last()[k] == x);
                }
            }
            if ps.drop_last().contains(x) {
                let k = choose|k: int| 0 <= k < ps.drop_last().len() && ps.drop_last()[k] == x;
                assert(ps[k] == x);
            }
            if !d.contains(ps.last()) {
                assert(d.push(ps.last())[d.len() as int] == ps.last());
                if d.contains(x) {
                    let k = choose|k: int| 0 <= k < d.len() && d[k] == x;
                    assert(d.push(ps.last())[k] == x);
                }
                if d.push(ps.last()).contains(x) {
                    let k = choose|k: int| 0 <= k < d.len() + 1 && d.push(ps.last())[k] == x;
                    if k < d.len() {
                        assert(d[k] == x);
                    }
                }
            }
        }
    }
}

/// The passages of a list, each kept at its first occurrence only.
pub fn distinct_passages(passages: &Vec<StudyPassage>) -> (r: Vec<StudyPassage>)
    ensures
        passages_view(r@) == distinct_spec(passages_view(passages@)),
{
    let ghost ps = passages_view(passages@);
    let mut r: Vec<StudyPassage> = Vec::new();
    let mut i: usize = 0;
    while i < passages.len()
        invariant
            i <= passages.len(),
            ps == passages_view(passages@),
            passages_view(r@) == distinct_spec(ps.take(i as int)),
        decreases passages.len() - i,
    {
        proof {
            assert(ps.take(i + 1).drop_last() =~= ps.take(i as int));
            assert(ps.take(i + 1).last() == passages@[i as int]@);
        }
        if !passages_contain(&r, &passages[i]) {
            let ghost before = passages_view(r@);
            r.push(passages[i].copy());
            assert(passages_view(r@) =~= before.push(passages@[i as int]@));
        }
        i = i + 1;
    }
    assert(ps.take(passages.len() as int) =~= ps);
    r
}

/// The passage a round shows: the whole passage, or the one verse picked from it.
pub open spec fn shown_spec(p: PassageView, policy: PromptPolicy, pick: int) -> PassageView {
    if shows_whole_passage_spec(policy, p) {
        p
    } else {
        PassageView { canon: p.canon, book: p.book, chapter: p.chapter, verses: seq![p.verses[pick]] }
    }
}

/// The text of a passage in the library, if the library has it.
pub open spec fn round_text(lib: ScriptureLibrary, shown: PassageView) -> Option<Seq<char>> {
    match lib.lookup(shown.canon) {
        Some(s) => passage_text(s.verse_list(), shown.book, shown.chapter, shown.verses),
        None => None,
    }
}

/// The rounds made from passages in order, with one pick each: shown passage, source passage
/// and text; `None` when the library lacks the text of a shown passage.
pub open spec fn study_rounds_spec(lib: ScriptureLibrary, ps: Seq<PassageView>, policy: PromptPolicy, picks: Seq<usize>)
    -> Option<Seq<(PassageView, PassageView, Seq<char>)>>
    decreases ps.len(),
{
    if ps.len() == 0 {
        Some(Seq::empty())
    } else {
        match study_rounds_spec(lib, ps.drop_last(), policy, picks) {
            None => None,
            Some(rs) => {
                let shown = shown_spec(ps.last(), policy, picks[ps.len() - 1] as int);
                match round_text(lib, shown) {
                    Some(t) => Some(rs.push((shown, ps.last(), t))),
                    None => None,
                }
            },
        }
    }
}

pub open spec fn rounds_view(v: Seq<RoundAnswer>) -> Seq<(PassageView, PassageView, Seq<char>)> {
    v.map_values(|a: RoundAnswer| (a.passage@, a.source_passage@, a.text@))
}

/// Whether a pick fits a passage: any pick does when the whole passage is shown, else it
/// names one of the passage's verses.
pub open spec fn pick_fits(p: PassageView, policy: PromptPolicy, pick: usize) -> bool {
    !shows_whole_passage_spec(policy, p) ==> pick < p.verses.len()
}

/// Makes the rounds of a study game from passages in order, with one verse pick each.
pub fn study_rounds(
    library: &ScriptureLibrary,
    selected: &Vec<StudyPassage>,
    prompt_policy: PromptPolicy,
    picks: &Vec<usize>,
) -> (r: Result<Vec<RoundAnswer>, ApiError>)
    requires
        picks@.len() == selected@.len(),
        forall|k: int| 0 <= k < selected@.len() ==> pick_fits(#[trigger] selected@[k]@, prompt_policy, picks@[k]),
    ensures
        match study_rounds_spec(*library, passages_view(selected@), prompt_policy, picks@) {
            None => refused(r, ErrorStatus::BadRequest, "Study passage was not found"@),
            Some(rs) => if rs.len() == 0 {
                refused(r, ErrorStatus::BadRequest, "No study passages found"@)
            } else {
                r matches Ok(v) && rounds_view(v@) == rs
            },
        },
{
    let ghost ps = passages_view(selected@);
    let mut rounds: Vec<RoundAnswer> = Vec::new();
    let mut i: usize = 0;
    while i < selected.len()
        invariant
            i <= selected.len(),
            ps == passages_view(selected@),
            picks@.len() == selected@.len(),
            forall|k: int| 0 <= k < selected@.len() ==> pick_fits(#[trigger] selected@[k]@, prompt_policy, picks@[k]),
            study_rounds_spec(*library, ps.take(i as int), prompt_policy, picks@) == Some(rounds_view(rounds@)),
        decreases selected.len() - i,
    {
        proof {
            assert(ps.take(i + 1).drop_last() =~= ps.take(i as int));
            assert(ps.take(i + 1).last() == selected@[i as int]@);
            assert(pick_fits(selected@[i as int]@, prompt_policy, picks@[i as int]));
        }
        let passage = &selected[i];
        let shown = if prompt_policy.shows_whole_passage(passage) {
            passage.copy()
        } else {
            let verse = passage.verses[picks[i]];
            let shown = StudyPassage {
                canon: passage.canon,
                book: passage.book.clone(),
                chapter: passage.chapter,
                verses: vec![verse],
            };
            assert(shown.verses@ =~= seq![verse]);
            shown
        };
        assert(shown@ == shown_spec(ps.take(i + 1).last(), prompt_policy, picks@[i as int] as int));
        let verse = match library.scriptures(shown.canon) {
            Some(scriptures) => scriptures.passage(shown.book.as_str(), shown.chapter, &shown.verses),
            None => None,
        };
        match verse {
            Some(v) => {
                let ghost before = rounds_view(rounds@);
                rounds.push(RoundAnswer { passage: shown, source_passage: passage.copy(), text: v.text });
                assert(rounds_view(rounds@) =~= before.push((shown@, passage@, v.text@)));
            },
            None => {
                proof {
                    lemma_rounds_fail_prefix(*library, ps, prompt_policy, picks@, i + 1);
                }
                return Err(ApiError::bad_request("Study passage was not found"));
            },
        }
        i = i + 1;
    }
    assert(ps.take(selected.len() as int) =~= ps);
    if rounds.len() == 0 {
        return Err(ApiError::bad_request("No study passages found"));
    }
    Ok(rounds)
}

/// Rounds cannot be made from a list when they cannot be made from a prefix of it.
proof fn lemma_rounds_fail_prefix(lib: ScriptureLibrary, ps: Seq<PassageView>, policy: PromptPolicy, picks: Seq<usize>, k: int)
    requires
        0 <= k <= ps.len(),
        study_rounds_spec(lib, ps.take(k), policy, picks) is None,
    ensures
        study_rounds_spec(lib, ps, policy, picks) is None,
    decreases ps.len() - k,
{
    if k < ps.len() {
        assert(ps.drop_last().take(k) =~= ps.take(k));
        lemma_rounds_fail_prefix(lib, ps.drop_last(), policy, picks, k);
    } else {
        assert(ps.take(k) =~= ps);
    }
}

/// Whether the library has every verse of a passage that lists at least one verse.
pub open spec fn resolvable(lib: ScriptureLibrary, p: PassageView) -> bool {
    p.verses.len() > 0 && passage_exists(lib, p)
}

/// Whether a round was made from its source passage: it shows the whole source or one verse
/// of it, as the policy asks, with the library's text of what it shows.
pub open spec fn round_from_source(lib: ScriptureLibrary, policy: PromptPolicy, a: (PassageView, PassageView, Seq<char>)) -> bool {
    &&& exists|k: usize| pick_fits(a.1, policy, k) && a.0 == #[trigger] shown_spec(a.1, policy, k as int)
    &&& round_text(lib, a.0) == Some(a.2)
}

/// The source passages of rounds, in order.
pub open spec fn round_sources(rs: Seq<(PassageView, PassageView, Seq<char>)>) -> Seq<PassageView> {
    rs.map_values(|a: (PassageView, PassageView, Seq<char>)| a.1)
}

/// What rounds made from passages in order are like, and when they can be made.
pub proof fn lemma_study_rounds(lib: ScriptureLibrary, ps: Seq<PassageView>, policy: PromptPolicy, picks: Seq<usize>)
    requires
        picks.len() >= ps.len(),
        forall|k: int| 0 <= k < ps.len() ==> pick_fits(#[trigger] ps[k], policy, picks[k]),
    ensures
        (forall|k: int| 0 <= k < ps.len() ==> resolvable(lib, #[trigger] ps[k])) ==> study_rounds_spec(lib, ps, policy, picks) is Some,
        study_rounds_spec(lib, ps, policy, picks) matches Some(rs) ==> {
            &&& rs.len() == ps.len()
            &&& forall|k: int| 0 <= k < rs.len() ==> (#[trigger] rs[k]).1 == ps[k] && round_from_source(lib, policy, rs[k])
        },
    decreases ps.len(),
{
    if ps.len() > 0 {
        let init = ps.drop_last();
        assert forall|k: int| 0 <= k < init.len() implies pick_fits(#[trigger] init[k], policy, picks[k]) by {
            assert(init[k] == ps[k]);
        }
        lemma_study_rounds(lib, init, policy, picks);
        let last = ps.last();
        let pick = picks[ps.len() - 1];
        assert(pick_fits(ps[ps.len() - 1], policy, pick));
        let shown = shown_spec(last, policy, pick as int);
        if forall|k: int| 0 <= k < ps.len() ==> resolvable(lib, #[trigger] ps[k]) {
            assert forall|k: int| 0 <= k < init.len() implies resolvable(lib, #[trigger] init[k]) by {
                assert(init[k] == ps[k]);
            }
            assert(resolvable(lib, ps[ps.len() - 1]));
            let s = lib.lookup(last.canon).unwrap();
            if shows_whole_passage_spec(policy, last) {
                lemma_passage_text_found(s.verse_list(), last.book, last.chapter, last.verses);
            } else {
                assert(find_verse(s.verse_list(), last.book, last.chapter, last.verses[pick as int]) != -1);
                lemma_passage_text_found(s.verse_list(), shown.book, shown.chapter, shown.verses);
            }
        }
        if study_rounds_spec(lib, ps, policy, picks) is Some {
            let rs = study_rounds_spec(lib, ps, policy, picks)->Some_0;
            let rs0 = study_rounds_spec(lib, init, policy, picks)->Some_0;
            assert(rs == rs0.push((shown, last, round_text(lib, shown)->Some_0)));
            assert forall|k: int| 0 <= k < rs.len() implies (#[trigger] rs[k]).1 == ps[k] && round_from_source(lib, policy, rs[k]) by {
                if k < rs0.len() {
                    assert(rs[k] == rs0[k]);
                    assert(init[k] == ps[k]);
                } else {
                    assert(rs[k] == (shown, last, round_text(lib, shown)->Some_0));
                    assert(pick_fits(rs[k].1, policy, pick) && rs[k].0 == shown_spec(rs[k].1, policy, pick as int));
                }
            }
        }
    }
}

/// A reordering of the indices below `m` holds each of them exactly once.
proof fn lemma_permutation_of_range(idx: Seq<usize>, m: nat)
    requires
        m <= usize::MAX,
        idx.to_multiset() == Seq::new(m, |i: int| i as usize).to_multiset(),
    ensures
        idx.len() == m,
        idx.no_duplicates(),
        forall|k: int| 0 <= k < idx.len() ==> idx[k] < m,
        forall|j: usize| j < m ==> idx.contains(j),
{
    broadcast use vstd::seq_lib::group_to_multiset_ensures;
    let r = Seq::new(m, |i: int| i as usize);
    assert forall|a: int, b: int| 0 <= a < r.len() && 0 <= b < r.len() && a != b implies r[a] != r[b] by {
        assert(r[a] == a as usize && r[b] == b as usize);
    }
    assert(r.no_duplicates());
    assert(idx.len() == idx.to_multiset().len());
    assert(r.len() == r.to_multiset().len());
    r.lemma_multiset_has_no_duplicates();
    idx.lemma_multiset_has_no_duplicates_conv();
    assert forall|k: int| 0 <= k < idx.len() implies idx[k] < m by {
        assert(idx.contains(idx[k]));
        assert(r.to_multiset().count(idx[k]) > 0);
        assert(r.contains(idx[k]));
    }
    assert forall|j: usize| j < m implies idx.contains(j) by {
        assert(r[j as int] == j);
        assert(r.contains(j));
        assert(idx.to_multiset().count(j) > 0);
    }
}

/// The indices below `m`, in order.
fn index_range(m: usize) -> (r: Vec<usize>)
    ensures
        r@ == Seq::new(m as nat, |i: int| i as usize),
{
    let mut r: Vec<usize> = Vec::new();
    let mut i: usize = 0;
    while i < m
        invariant
            i <= m,
            r@ == Seq::new(i as nat, |j: int| j as usize),
        decreases m - i,
    {
        r.push(i);
        assert(r@ =~= Seq::new((i + 1) as nat, |j: int| j as usize));
        i = i + 1;
    }
    r
}

/// What holds of every outcome of making the rounds of a study game: at most `round_count`
/// distinct passages are used, each once, in some order; when there are none the game is
/// refused, and when the library has all of them the rounds are made.
pub open spec fn study_outcome(
    lib: ScriptureLibrary,
    ps: Seq<PassageView>,
    round_count: usize,
    policy: PromptPolicy,
    r: Result<Vec<RoundAnswer>, ApiError>,
) -> bool {
    let d = distinct_spec(ps);
    let n = if (round_count as int) < d.len() { round_count as int } else { d.len() as int };
    &&& n == 0 ==> refused(r, ErrorStatus::BadRequest, "No study passages found"@)
    &&& (n > 0 && forall|k: int| 0 <= k < d.len() ==> resolvable(lib, #[trigger] d[k])) ==> r is Ok
    &&& r matches Err(e) ==> e.status == ErrorStatus::BadRequest && (n == 0 || e.message@ == "Study passage was not found"@)
    &&& r matches Ok(v) ==> study_rounds_made(lib, ps, round_count, policy, rounds_view(v@))
}

/// Whether rounds were made from the distinct passages of a list: as many as there are
/// passages, up to `round_count`, each from its own passage.
pub open spec fn study_rounds_made(
    lib: ScriptureLibrary,
    ps: Seq<PassageView>,
    round_count: usize,
    policy: PromptPolicy,
    rs: Seq<(PassageView, PassageView, Seq<char>)>,
) -> bool {
    let d = distinct_spec(ps);
    let n = if (round_count as int) < d.len() { round_count as int } else { d.len() as int };
    &&& rs.len() == n
    &&& round_sources(rs).no_duplicates()
    &&& forall|k: int| 0 <= k < rs.len() ==> d.contains((#[trigger] rs[k]).1) && round_from_source(lib, policy, rs[k])
    &&& n == d.len() ==> forall|x: PassageView| d.contains(x) ==> round_sources(rs).contains(x)
}

/// Makes the rounds of a study game: the distinct passages in a random order, at most
/// `round_count` of them, each showing the whole passage or one verse drawn at random.
pub fn study_passages(
    library: &ScriptureLibrary,
    passages: Vec<StudyPassage>,
    round_count: usize,
    prompt_policy: PromptPolicy,
    rng: &mut SmallRng,
) -> (r: Result<Vec<RoundAnswer>, ApiError>)
    requires
        forall|k: int| 0 <= k < passages@.len() && !shows_whole_passage_spec(prompt_policy, #[trigger] passages@[k]@)
            ==> passages@[k].verses@.len() > 0,
    ensures
        study_outcome(*library, passages_view(passages@), round_count, prompt_policy, r),
{
    let ghost ps = passages_view(passages@);
    let distinct = distinct_passages(&passages);
    let ghost d = passages_view(distinct@);
    proof {
        lemma_distinct(ps);
    }
    let mut order = index_range(distinct.len());
    shuffle_indices(&mut order, rng);
    proof {
        lemma_permutation_of_range(order@, distinct@.len());
    }
    let n: usize = if round_count < distinct.len() { round_count } else { distinct.len() };
    let mut selected: Vec<StudyPassage> = Vec::new();
    let mut picks: Vec<usize> = Vec::new();
    let mut k: usize = 0;
    while k < n
        invariant
            k <= n <= distinct@.len() == order@.len(),
            n == round_count || n == distinct@.len(),
            d == passages_view(distinct@),
            d == distinct_spec(ps),
            ps == passages_view(passages@),
            forall|x: PassageView| d.contains(x) <==> ps.contains(x),
            forall|j: int| 0 <= j < order@.len() ==> order@[j] < distinct@.len(),
            forall|i: int| 0 <= i < passages@.len() && !shows_whole_passage_spec(prompt_policy, #[trigger] passages@[i]@)
                ==> passages@[i].verses@.len() > 0,
            selected@.len() == k,
            picks@.len() == k,
            forall|j: int| 0 <= j < k ==> (#[trigger] selected@[j])@ == d[order@[j] as int],
            forall|j: int| 0 <= j < k ==> pick_fits(#[trigger] selected@[j]@, prompt_policy, picks@[j]),
        decreases n - k,
    {
        let passage = distinct[order[k]].copy();
        proof {
            let x = d[order@[k as int] as int];
            assert(d.contains(x));
            let i = choose|i: int| 0 <= i < ps.len() && ps[i] == x;
            assert(ps[i] == passages@[i]@);
        }
        let pick: usize = if prompt_policy.shows_whole_passage(&passage) {
            0
        } else {
            random_index(rng, passage.verses.len())
        };
        selected.push(passage);
        picks.push(pick);
        k = k + 1;
    }
    let r = study_rounds(library, &selected, prompt_policy, &picks);
    proof {
        let sv = passages_view(selected@);
        assert forall|j: int| 0 <= j < sv.len() implies pick_fits(#[trigger] sv[j], prompt_policy, picks@[j]) by {
            assert(sv[j] == selected@[j]@);
        }
        lemma_study_rounds(*library, sv, prompt_policy, picks@);
        assert forall|j: int| 0 <= j < sv.len() implies sv[j] == d[order@[j] as int] by {
            assert(sv[j] == selected@[j]@);
        }
        if forall|i: int| 0 <= i < d.len() ==> resolvable(*library, #[trigger] d[i]) {
            assert forall|j: int| 0 <= j < sv.len() implies resolvable(*library, #[trigger] sv[j]) by {
                assert(sv[j] == d[order@[j] as int]);
            }
        }
        if r is Ok {
            let v = r->Ok_0;
            let rs = rounds_view(v@);
            let srcs = round_sources(rs);
            assert forall|a: int, b: int| 0 <= a < srcs.len() && 0 <= b < srcs.len() && a != b implies srcs[a] != srcs[b] by {
                assert(srcs[a] == rs[a].1 && rs[a].1 == sv[a]);
                assert(srcs[b] == rs[b].1 && rs[b].1 == sv[b]);
                assert(order@[a] != order@[b]);
            }
            assert forall|j: int| 0 <= j < rs.len() implies d.contains((#[trigger] rs[j]).1) && round_from_source(*library, prompt_policy, rs[j]) by {
                assert(rs[j].1 == sv[j]);
                assert(d[order@[j] as int] == sv[j]);
            }
            if n == d.len() {
                assert forall|x: PassageView| d.contains(x) implies srcs.contains(x) by {
                    let i = choose|i: int| 0 <= i < d.len() && d[i] == x;
                    assert(order@.contains(i as usize));
                    let j = choose|j: int| 0 <= j < order@.len() && order@[j] == i as usize;
                    assert(srcs[j] == rs[j].1);
                    assert(rs[j].1 == sv[j]);
                }
            }
        }
    }
    r
}

/// Whether a round was drawn from a single verse: it shows and answers that verse alone.
pub open spec fn round_of_verse(a: (PassageView, PassageView, Seq<char>), v: (RefView, Seq<char>)) -> bool {
    &&& a.0 == (PassageView { canon: v.0.canon, book: v.0.book, chapter: v.0.chapter, verses: seq![v.0.verse] })
    &&& a.1 == a.0
    &&& a.2 == v.1
}

/// Whether a round was drawn from the verse that an index picks.
pub open spec fn drawn_at(
    lib: ScriptureLibrary,
    d: Difficulty,
    scope: Seq<(Canon, BookSelection)>,
    i: int,
    a: (PassageView, PassageView, Seq<char>),
) -> bool {
    verse_pick(lib, d, scope, i) matches Ok(x) && round_of_verse(a, x)
}

/// Whether a round was drawn from the verse that some index below `count` picks.
pub open spec fn drawn_within(
    lib: ScriptureLibrary,
    d: Difficulty,
    scope: Seq<(Canon, BookSelection)>,
    count: int,
    a: (PassageView, PassageView, Seq<char>),
) -> bool {
    exists|i: int| 0 <= i < count && #[trigger] drawn_at(lib, d, scope, i, a)
}

/// The rounds of a random game: `round_count` verses, each drawn among the `playable_count`
/// playable verses of the scope.
pub fn random_rounds(
    library: &ScriptureLibrary,
    difficulty: Difficulty,
    scope: &GameScope,
    round_count: usize,
    playable_count: usize,
    rng: &mut SmallRng,
) -> (r: Result<Vec<RoundAnswer>, ApiError>)
    requires
        playable_count > 0,
    ensures
        (scope_loaded(*library, scope@) && playable_count <= scope_playable_total(*library, difficulty, scope@)) ==> r is Ok,
        r matches Err(e) ==> e.status == ErrorStatus::BadRequest
            && exists|i: int| 0 <= i < playable_count && #[trigger] verse_pick(*library, difficulty, scope@, i) == Err::<(RefView, Seq<char>), Seq<char>>(e.message@),
        r matches Ok(v) ==> v@.len() == round_count && forall|k: int| 0 <= k < v@.len()
            ==> drawn_within(*library, difficulty, scope@, playable_count as int, #[trigger] rounds_view(v@)[k]),
{
    proof {
        if scope_loaded(*library, scope@) && playable_count <= scope_playable_total(*library, difficulty, scope@) {
            assert forall|i: int| 0 <= i < playable_count implies (#[trigger] verse_pick(*library, difficulty, scope@, i)) is Ok by {
                lemma_pick_in_scope(*library, difficulty, scope@, i);
            }
        }
    }
    let mut rounds: Vec<RoundAnswer> = Vec::new();
    let mut k: usize = 0;
    while k < round_count
        invariant
            k <= round_count,
            playable_count > 0,
            rounds@.len() == k,
            forall|j: int| 0 <= j < k ==> drawn_within(*library, difficulty, scope@, playable_count as int, #[trigger] rounds_view(rounds@)[j]),
            (scope_loaded(*library, scope@) && playable_count <= scope_playable_total(*library, difficulty, scope@))
                ==> forall|i: int| 0 <= i < playable_count ==> (#[trigger] verse_pick(*library, difficulty, scope@, i)) is Ok,
        decreases round_count - k,
    {
        let drawn = random_verse(library, difficulty, scope, playable_count, rng);
        let ghost i0 = choose|i: int| 0 <= i < playable_count && answers_pick(drawn, #[trigger] verse_pick(*library, difficulty, scope@, i));
        let verse = match drawn {
            Ok(v) => v,
            Err(e) => {
                assert(verse_pick(*library, difficulty, scope@, i0) == Err::<(RefView, Seq<char>), Seq<char>>(e.message@));
                return Err(e);
            },
        };
        let ghost before = rounds_view(rounds@);
        let ghost vv = verse@;
        assert(verse_pick(*library, difficulty, scope@, i0) == Ok::<(RefView, Seq<char>), Seq<char>>(vv));
        let round = RoundAnswer::from_verse(verse);
        rounds.push(round);
        proof {
            assert(rounds_view(rounds@) =~= before.push((round.passage@, round.source_passage@, round.text@)));
            assert(drawn_at(*library, difficulty, scope@, i0, rounds_view(rounds@)[k as int]));
            assert forall|j: int| 0 <= j < k + 1 implies drawn_within(*library, difficulty, scope@, playable_count as int, #[trigger] rounds_view(rounds@)[j]) by {
                if j < k {
                    assert(rounds_view(rounds@)[j] == before[j]);
                } else {
                    assert(drawn_at(*library, difficulty, scope@, i0, rounds_view(rounds@)[j]));
                }
            }
        }
        k = k + 1;
    }
    Ok(rounds)
}

/// The texts that rounds show.
pub open spec fn round_texts(rs: Seq<(PassageView, PassageView, Seq<char>)>) -> Seq<Seq<char>> {
    rs.map_values(|a: (PassageView, PassageView, Seq<char>)| a.2)
}

pub open spec fn prompt_texts(v: Seq<RoundPrompt>) -> Seq<Seq<char>> {
    v.map_values(|p: RoundPrompt| p.text@)
}

/// Stores a new game and answers with its prompts, without its answers.
pub fn start_game(
    library: &ScriptureLibrary,
    store: &mut GameStore,
    game_id: String,
    difficulty: Difficulty,
    scope: GameScope,
    rounds: Vec<RoundAnswer>,
    playable_count: usize,
    now: u128,
) -> (r: NewGameResponse)
    requires
        rounds@.len() <= MAX_GAME_ROUNDS,
        scope_verse_total(*library, scope@) <= usize::MAX,
    ensures
        final(store).games@ == store_insert(
            old(store).games@,
            (game_id, (ServerGame { scope, rounds, last_seen_at: now, progress: final(store).games@[game_position(final(store).games@, game_id@)].1.progress })),
        ),
        ({
            let progress = final(store).games@[game_position(final(store).games@, game_id@)].1.progress;
            &&& progress.difficulty == difficulty
            &&& progress.playable_verse_count == playable_count
            &&& progress.current_round_index == 0
            &&& progress.guesses@.len() == rounds@.len()
            &&& forall|k: int| 0 <= k < rounds@.len() ==> (#[trigger] progress.guesses@[k]) is None
        }),
        r.game_id@ == game_id@,
        prompt_texts(r.rounds@) == round_texts(rounds_view(rounds@)),
        r.difficulty == difficulty,
        r.scope@ == scope@,
        metadata_view(r.metadata@) == metadata_spec(*library, difficulty, scope@),
        r.playable_verse_count == playable_count,
        r.total_verse_count == scope_verse_total(*library, scope@),
        r.max_total_score == rounds@.len() * MAX_SCORE,
{
    let mut prompts: Vec<RoundPrompt> = Vec::new();
    let mut i: usize = 0;
    while i < rounds.len()
        invariant
            i <= rounds@.len(),
            prompt_texts(prompts@) == round_texts(rounds_view(rounds@)).take(i as int),
        decreases rounds.len() - i,
    {
        let ghost before = prompt_texts(prompts@);
        prompts.push(RoundPrompt { text: rounds[i].text.clone() });
        assert(round_texts(rounds_view(rounds@))[i as int] == rounds@[i as int].text@);
        assert(prompt_texts(prompts@) =~= before.push(rounds@[i as int].text@));
        assert(round_texts(rounds_view(rounds@)).take(i + 1) =~= round_texts(rounds_view(rounds@)).take(i as int).push(rounds@[i as int].text@));
        i = i + 1;
    }
    assert(round_texts(rounds_view(rounds@)).take(rounds@.len() as int) =~= round_texts(rounds_view(rounds@)));
    let round_count = rounds.len() as u32;
    let response = NewGameResponse {
        game_id: game_id.clone(),
        rounds: prompts,
        difficulty,
        scope: scope.copy(),
        metadata: metadata_for(library, difficulty, &scope),
        playable_verse_count: playable_count,
        total_verse_count: total_verse_count(library, &scope),
        max_total_score: round_count * MAX_SCORE,
    };
    let progress = GameProgress::fresh(difficulty, playable_count, rounds.len());
    let ghost entry = (game_id, ServerGame { scope, rounds, last_seen_at: now, progress });
    let ghost before = store.games@;
    store.insert(game_id, ServerGame { scope, rounds, last_seen_at: now, progress });
    proof {
        lemma_store_insert(before, entry);
    }
    response
}

/// The round count, difficulty and scope that a game request names.
pub open spec fn request_parts(request: NewGameRequest) -> (usize, Difficulty, Seq<(Canon, BookSelection)>) {
    match request {
        NewGameRequest::Random { round_count, difficulty, scope } => (round_count, difficulty, scope@),
        NewGameRequest::Study { round_count, difficulty, scope, .. } => (round_count, difficulty, scope@),
    }
}

/// Whether the verse counts of a scope fit in a `usize`.
pub open spec fn totals_fit(lib: ScriptureLibrary, d: Difficulty, scope: Seq<(Canon, BookSelection)>) -> bool {
    scope_playable_total(lib, d, scope) <= usize::MAX && scope_verse_total(lib, scope) <= usize::MAX
}

/// Whether the verse counts of a scope fit in a `usize`.
pub fn scope_totals_fit(library: &ScriptureLibrary, difficulty: Difficulty, scope: &GameScope) -> (r: bool)
    ensures
        r == totals_fit(*library, difficulty, scope@),
{
    let ghost sv = scope@;
    let mut playable: usize = 0;
    let mut total: usize = 0;
    let mut i: usize = 0;
    while i < scope.canons.len()
        invariant
            i <= scope.canons.len(),
            sv == scope@,
            playable == scope_playable_total(*library, difficulty, sv.take(i as int)),
            total == scope_verse_total(*library, sv.take(i as int)),
        decreases scope.canons.len() - i,
    {
        proof {
            assert(sv.take(i + 1).drop_last() =~= sv.take(i as int));
            assert(sv.take(i + 1).last() == scope.canons@[i as int]@);
            lemma_playable_total_prefix(*library, difficulty, sv, i + 1);
            lemma_verse_total_prefix(*library, sv, i + 1);
        }
        let canon_scope = &scope.canons[i];
        match library.scriptures(canon_scope.canon) {
            Some(scriptures) => {
                match playable.checked_add(scriptures.scoped_verse_count_for_difficulty(difficulty, &canon_scope.books)) {
                    Some(n) => {
                        playable = n;
                    },
                    None => {
                        return false;
                    },
                }
                match total.checked_add(scriptures.scoped_total_verse_count(&canon_scope.books)) {
                    Some(n) => {
                        total = n;
                    },
                    None => {
                        return false;
                    },
                }
            },
            None => {},
        }
        i = i + 1;
    }
    assert(sv.take(scope.canons.len() as int) =~= sv);
    true
}

/// Every passage of a list that passes the checks lists verses that the library has.
proof fn lemma_passages_pass(lib: ScriptureLibrary, scope: Seq<(Canon, BookSelection)>, ps: Seq<PassageView>)
    requires
        first_passage_problem(lib, scope, ps) is None,
    ensures
        forall|k: int| 0 <= k < ps.len() ==> resolvable(lib, #[trigger] ps[k]),
    decreases ps.len(),
{
    if ps.len() > 0 {
        lemma_passages_pass(lib, scope, ps.drop_first());
        assert forall|k: int| 0 <= k < ps.len() implies resolvable(lib, #[trigger] ps[k]) by {
            if k > 0 {
                assert(ps[k] == ps.drop_first()[k - 1]);
            }
        }
    }
}

/// What a started game answers with and stores, whatever was drawn.
pub open spec fn new_game_answer(lib: ScriptureLibrary, request: NewGameRequest, resp: NewGameResponse, g: ServerGame, now: u128) -> bool {
    let (round_count, d, sc) = request_parts(request);
    let rs = rounds_view(g.rounds@);
    &&& g.scope@ == sc
    &&& g.last_seen_at == now
    &&& g.progress.difficulty == d
    &&& g.progress.playable_verse_count == resp.playable_verse_count
    &&& g.progress.current_round_index == 0
    &&& g.progress.guesses@.len() == rs.len()
    &&& forall|k: int| 0 <= k < rs.len() ==> (#[trigger] g.progress.guesses@[k]) is None
    &&& prompt_texts(resp.rounds@) == round_texts(rs)
    &&& resp.difficulty == d
    &&& resp.scope@ == sc
    &&& metadata_view(resp.metadata@) == metadata_spec(lib, d, sc)
    &&& resp.total_verse_count == scope_verse_total(lib, sc)
    &&& resp.max_total_score == rs.len() * MAX_SCORE
    &&& exists|n: u64| resp.game_id@ == #[trigger] decimal(n as nat)
    &&& match request {
        NewGameRequest::Random { .. } => {
            &&& rs.len() == round_count
            &&& resp.playable_verse_count == scope_playable_total(lib, d, sc)
            &&& forall|k: int| 0 <= k < rs.len() ==> drawn_within(lib, d, sc, resp.playable_verse_count as int, #[trigger] rs[k])
        },
        NewGameRequest::Study { passages, prompt_policy, .. } => {
            &&& resp.playable_verse_count == rs.len()
            &&& study_rounds_made(lib, passages_view(passages@), round_count, prompt_policy, rs)
        },
    }
}

/// When a game request is refused, and when it is granted.
pub open spec fn new_game_decision(lib: ScriptureLibrary, request: NewGameRequest, r: Result<NewGameResponse, ApiError>) -> bool {
    let (round_count, d, sc) = request_parts(request);
    match game_basics_problem(round_count, sc) {
        Some(m) => refused(r, ErrorStatus::BadRequest, m),
        None => match request {
            NewGameRequest::Random { .. } => {
                &&& scope_playable_total(lib, d, sc) == 0 ==> refused(r, ErrorStatus::BadRequest, "No playable verses found"@)
                &&& (scope_playable_total(lib, d, sc) > 0 && scope_loaded(lib, sc)) ==> r is Ok
                &&& r matches Err(e) ==> e.status == ErrorStatus::BadRequest && (scope_playable_total(lib, d, sc) == 0
                    || exists|i: int| 0 <= i < scope_playable_total(lib, d, sc)
                        && #[trigger] verse_pick(lib, d, sc, i) == Err::<(RefView, Seq<char>), Seq<char>>(e.message@))
            },
            NewGameRequest::Study { passages, .. } => match study_passages_problem(lib, sc, passages_view(passages@)) {
                Some(m) => refused(r, ErrorStatus::BadRequest, m),
                None => r is Ok,
            },
        },
    }
}

/// Starts a game: forgets the games not seen within `ttl` of `now`, checks the request,
/// draws its rounds and stores the game under a random id.
pub fn create_game(
    library: &ScriptureLibrary,
    store: &mut GameStore,
    request: NewGameRequest,
    now: u128,
    ttl: u128,
    rng: &mut SmallRng,
) -> (r: Result<NewGameResponse, ApiError>)
    requires
        totals_fit(*library, request_parts(request).1, request_parts(request).2),
    ensures
        new_game_decision(*library, request, r),
        r is Err ==> final(store).games@ == pruned_games(old(store).games@, now, ttl),
        r matches Ok(resp) ==> {
            &&& game_position(final(store).games@, resp.game_id@) != -1
            &&& final(store).games@ == store_insert(
                pruned_games(old(store).games@, now, ttl),
                stored_entry(final(store).games@, resp.game_id@),
            )
            &&& new_game_answer(*library, request, resp, stored_entry(final(store).games@, resp.game_id@).1, now)
        },
{
    prune_games(store, now, ttl);
    let ghost before = store.games@;
    match request {
        NewGameRequest::Random { round_count, difficulty, scope } => {
            match validate_game_basics(round_count, &scope) {
                Err(e) => {
                    return Err(e);
                },
                Ok(_) => {},
            }
            let playable_count = playable_verse_count(library, difficulty, &scope);
            if playable_count == 0 {
                return Err(ApiError::bad_request("No playable verses found"));
            }
            let rounds = match random_rounds(library, difficulty, &scope, round_count, playable_count, rng) {
                Ok(v) => v,
                Err(e) => {
                    return Err(e);
                },
            };
            let n = random_u64(rng);
            let id = u64_to_decimal(n);
            let ghost sv = scope@;
            let ghost rs = rounds_view(rounds@);
            let ghost id_g = id;
            let ghost scope_g = scope;
            let ghost rounds_g = rounds;
            let resp = start_game(library, store, id, difficulty, scope, rounds, playable_count, now);
            proof {
                let progress = store.games@[game_position(store.games@, id_g@)].1.progress;
                lemma_store_insert(before, (id_g, (ServerGame { scope: scope_g, rounds: rounds_g, last_seen_at: now, progress })));
                assert(stored_entry(store.games@, resp.game_id@).1.scope@ == sv);
                assert(rounds_view(stored_entry(store.games@, resp.game_id@).1.rounds@) == rs);
                assert(resp.game_id@ == decimal(n as nat));
            }
            Ok(resp)
        },
        NewGameRequest::Study { round_count, difficulty, scope, passages, prompt_policy } => {
            match validate_game_basics(round_count, &scope) {
                Err(e) => {
                    return Err(e);
                },
                Ok(_) => {},
            }
            match validate_study_passages(library, &scope, &passages) {
                Err(e) => {
                    return Err(e);
                },
                Ok(_) => {},
            }
            let ghost ps = passages_view(passages@);
            proof {
                lemma_passages_pass(*library, scope@, ps);
                lemma_distinct(ps);
                assert forall|k: int| 0 <= k < passages@.len() && !shows_whole_passage_spec(prompt_policy, #[trigger] passages@[k]@)
                    implies passages@[k].verses@.len() > 0 by {
                    assert(ps[k] == passages@[k]@);
                }
                let dd = distinct_spec(ps);
                assert(ps.contains(ps[0]));
                assert forall|k: int| 0 <= k < dd.len() implies resolvable(*library, #[trigger] dd[k]) by {
                    assert(dd.contains(dd[k]));
                    assert(ps.contains(dd[k]));
                    let j = choose|j: int| 0 <= j < ps.len() && ps[j] == dd[k];
                }
            }
            let rounds = match study_passages(library, passages, round_count, prompt_policy, rng) {
                Ok(v) => v,
                Err(e) => {
                    return Err(e);
                },
            };
            let playable_count = rounds.len();
            let n = random_u64(rng);
            let id = u64_to_decimal(n);
            let ghost sv = scope@;
            let ghost rs = rounds_view(rounds@);
            let ghost id_g = id;
            let ghost scope_g = scope;
            let ghost rounds_g = rounds;
            let resp = start_game(library, store, id, difficulty, scope, rounds, playable_count, now);
            proof {
                let progress = store.games@[game_position(store.games@, id_g@)].1.progress;
                lemma_store_insert(before, (id_g, (ServerGame { scope: scope_g, rounds: rounds_g, last_seen_at: now, progress })));
                assert(stored_entry(store.games@, resp.game_id@).1.scope@ == sv);
                assert(rounds_view(stored_entry(store.games@, resp.game_id@).1.rounds@) == rs);
                assert(resp.game_id@ == decimal(n as nat));
            }
            Ok(resp)
        },
    }
}

/// Whether every game stored under an id has a scope whose chapters can be counted.
pub open spec fn guessable(lib: ScriptureLibrary, games: Seq<(String, ServerGame)>, id: Seq<char>) -> bool {
    forall|k: int| 0 <= k < games.len() && (#[trigger] games[k]).0@ == id ==> scope_chapter_total(lib, games[k].1.scope@) <= usize::MAX
}

/// Whether every game stored under an id has a scope whose chapters can be counted.
pub fn games_guessable(library: &ScriptureLibrary, store: &GameStore, game_id: &str) -> (r: bool)
    ensures
        r == guessable(*library, store.games@, game_id@),
{
    let mut k: usize = 0;
    while k < store.games.len()
        invariant
            k <= store.games@.len(),
            forall|j: int| 0 <= j < k && (#[trigger] store.games@[j]).0@ == game_id@
                ==> scope_chapter_total(*library, store.games@[j].1.scope@) <= usize::MAX,
        decreases store.games.len() - k,
    {
        if crate::text::str_equal(store.games[k].0.as_str(), game_id) && !library.chapters_fit(&store.games[k].1.scope) {
            return false;
        }
        k = k + 1;
    }
    true
}

pub open spec fn chapter_verses_view(v: Seq<ChapterVerse>) -> Seq<(u16, Seq<char>)> {
    v.map_values(|c: ChapterVerse| (c.verse, c.text@))
}

/// The verse numbers and texts of the verses of a chapter.
pub open spec fn chapter_listing(verses: Seq<(RefView, Seq<char>)>, r: RefView) -> Seq<(u16, Seq<char>)> {
    verses.filter(|v: (RefView, Seq<char>)| in_chapter_of(v, r)).map_values(|v: (RefView, Seq<char>)| (v.0.verse, v.1))
}

/// What a guess on a round is answered with: the answer and its source, the guess, its
/// score against the answer's first verse within the game's scope, and the answer's chapter.
pub open spec fn guess_answer(
    lib: ScriptureLibrary,
    scope: Seq<(Canon, BookSelection)>,
    round: RoundAnswer,
    request: GuessRequest,
    resp: GuessResponse,
) -> bool {
    let first = RefView {
        canon: round.passage.canon,
        book: round.passage.book@,
        chapter: round.passage.chapter,
        verse: round.passage.verses@[0],
    };
    &&& resp.answer@ == round.passage@
    &&& resp.source_passage@ == round.source_passage@
    &&& resp.guess.canon == request.canon
    &&& resp.guess.book@ == request.book@
    &&& resp.guess.chapter == request.chapter
    &&& resp.score == score_spec(lib, scope, first, request.canon, request.book@, request.chapter)
    &&& chapter_verses_view(resp.chapter_verses@) == chapter_listing(lib.lookup(round.passage.canon).unwrap().verse_list(), first)
}

/// What a guess on a round is answered: refused when the round has no answer verse or its
/// canon is not loaded, else scored.
pub open spec fn answer_outcome(
    lib: ScriptureLibrary,
    scope: Seq<(Canon, BookSelection)>,
    round: RoundAnswer,
    request: GuessRequest,
    r: Result<GuessResponse, ApiError>,
) -> bool {
    if round.passage.verses@.len() == 0 {
        refused(r, ErrorStatus::BadRequest, "Round has no answer verses"@)
    } else if lib.lookup(round.passage.canon) is None {
        refused(r, ErrorStatus::NotFound, "Canon not found"@)
    } else {
        r matches Ok(resp) && guess_answer(lib, scope, round, request, resp)
    }
}

/// A game's progress with a guess recorded on the round it names, when there is such a round.
pub open spec fn guess_recorded(before: GameProgress, after: GameProgress, request: GuessRequest) -> bool {
    &&& after.difficulty == before.difficulty
    &&& after.playable_verse_count == before.playable_verse_count
    &&& after.current_round_index == before.current_round_index
    &&& guesses_view(after.guesses@) == if request.round_index < before.guesses@.len() {
        guesses_view(before.guesses@).update(request.round_index as int, Some(guess_request_view(request)))
    } else {
        guesses_view(before.guesses@)
    }
}

/// A stored game marked as seen at `now`, and otherwise as it was.
pub open spec fn touched(games: Seq<(String, ServerGame)>, p: int, now: u128) -> Seq<(String, ServerGame)> {
    let g = games[p].1;
    games.update(p, (games[p].0, (ServerGame { scope: g.scope, rounds: g.rounds, last_seen_at: now, progress: g.progress })))
}

/// How a guess is answered, and what becomes of the store.
pub open spec fn guess_outcome(
    lib: ScriptureLibrary,
    before: Seq<(String, ServerGame)>,
    id: Seq<char>,
    request: GuessRequest,
    now: u128,
    after: Seq<(String, ServerGame)>,
    r: Result<GuessResponse, ApiError>,
) -> bool {
    let p = game_position(before, id);
    if p == -1 {
        refused(r, ErrorStatus::NotFound, "Game not found"@) && after == before
    } else {
        let g = before[p].1;
        if request.round_index >= g.rounds@.len() {
            refused(r, ErrorStatus::BadRequest, "Round not found"@) && after == touched(before, p, now)
        } else {
            let round = g.rounds@[request.round_index as int];
            &&& answer_outcome(lib, g.scope@, round, request, r)
            &&& r is Err ==> after == touched(before, p, now)
            &&& r is Ok ==> {
                &&& after == before.update(p, (before[p].0, (ServerGame {
                    scope: g.scope,
                    rounds: g.rounds,
                    last_seen_at: now,
                    progress: after[p].1.progress,
                })))
                &&& guess_recorded(g.progress, after[p].1.progress, request)
            }
        }
    }
}

impl GuessRequest {
    pub fn copy(&self) -> (r: GuessRequest)
        ensures
            guess_request_view(r) == guess_request_view(*self),
    {
        GuessRequest { round_index: self.round_index, canon: self.canon, book: self.book.clone(), chapter: self.chapter }
    }
}

impl GameStore {
    /// Records a guess on the game at a position.
    fn record_guess(&mut self, i: usize, request: GuessRequest)
        requires
            i < old(self).games@.len(),
        ensures
            final(self).games@ == old(self).games@.update(
                i as int,
                (old(self).games@[i as int].0, (ServerGame {
                    scope: old(self).games@[i as int].1.scope,
                    rounds: old(self).games@[i as int].1.rounds,
                    last_seen_at: old(self).games@[i as int].1.last_seen_at,
                    progress: final(self).games@[i as int].1.progress,
                })),
            ),
            guess_recorded(old(self).games@[i as int].1.progress, final(self).games@[i as int].1.progress, request),
    {
        let ghost old_guesses = guesses_view(self.games@[i as int].1.progress.guesses@);
        let ghost rv = guess_request_view(request);
        let (id, game) = self.games.remove(i);
        let ServerGame { scope, rounds, last_seen_at, progress } = game;
        let GameProgress { difficulty, playable_verse_count, current_round_index, mut guesses } = progress;
        let idx = request.round_index;
        if idx < guesses.len() {
            guesses.set(idx, Some(request));
            assert(guesses_view(guesses@) =~= old_guesses.update(idx as int, Some(rv)));
        }
        let progress = GameProgress { difficulty, playable_verse_count, current_round_index, guesses };
        self.games.insert(i, (id, ServerGame { scope, rounds, last_seen_at, progress }));
        assert(self.games@ =~= old(self).games@.update(
            i as int,
            (old(self).games@[i as int].0, (ServerGame {
                scope: old(self).games@[i as int].1.scope,
                rounds: old(self).games@[i as int].1.rounds,
                last_seen_at: old(self).games@[i as int].1.last_seen_at,
                progress: self.games@[i as int].1.progress,
            })),
        ));
    }
}

/// Scores a guess on a round of a game with a scope.
pub fn answer_guess(
    library: &ScriptureLibrary,
    scope: &GameScope,
    round: &RoundAnswer,
    request: GuessRequest,
) -> (r: Result<GuessResponse, ApiError>)
    requires
        scope_chapter_total(*library, scope@) <= usize::MAX,
    ensures
        answer_outcome(*library, scope@, *round, request, r),
{
    let answer = round.passage.copy();
    let answer_reference = match answer.first_reference() {
        Some(reference) => reference,
        None => {
            return Err(ApiError::bad_request("Round has no answer verses"));
        },
    };
    let score = library.score(scope, &answer_reference, request.canon, request.book.as_str(), request.chapter);
    let scriptures = match library.scriptures(answer.canon) {
        Some(s) => s,
        None => {
            return Err(ApiError::not_found("Canon not found"));
        },
    };
    let verses = scriptures.verses_for_chapter(&answer_reference);
    let ghost listing = chapter_listing(scriptures.verse_list(), answer_reference@);
    let ghost vv = crate::scriptures::verses_view(verses@);
    let mut chapter_verses: Vec<ChapterVerse> = Vec::new();
    let mut i: usize = 0;
    while i < verses.len()
        invariant
            i <= verses@.len(),
            vv == crate::scriptures::verses_view(verses@),
            vv == scriptures.verse_list().filter(|v: (RefView, Seq<char>)| in_chapter_of(v, answer_reference@)),
            listing == chapter_listing(scriptures.verse_list(), answer_reference@),
            chapter_verses_view(chapter_verses@) == listing.take(i as int),
        decreases verses.len() - i,
    {
        let ghost before_cv = chapter_verses_view(chapter_verses@);
        chapter_verses.push(ChapterVerse { verse: verses[i].reference.verse, text: verses[i].text.clone() });
        proof {
            assert(vv[i as int] == verses@[i as int]@);
            assert(listing[i as int] == (verses@[i as int].reference.verse, verses@[i as int].text@));
            assert(chapter_verses_view(chapter_verses@) =~= before_cv.push(listing[i as int]));
            assert(listing.take(i + 1) =~= listing.take(i as int).push(listing[i as int]));
        }
        i = i + 1;
    }
    assert(listing.take(verses@.len() as int) =~= listing);
    Ok(GuessResponse {
        answer,
        source_passage: round.source_passage.copy(),
        guess: GuessReference { canon: request.canon, book: request.book, chapter: request.chapter },
        score,
        chapter_verses,
    })
}

/// Answers a guess on a round of a stored game: forgets the games not seen within `ttl` of
/// `now`, marks the game as seen, scores the guess and records it on its round.
pub fn submit_guess(
    library: &ScriptureLibrary,
    store: &mut GameStore,
    game_id: &str,
    request: GuessRequest,
    now: u128,
    ttl: u128,
) -> (r: Result<GuessResponse, ApiError>)
    requires
        guessable(*library, old(store).games@, game_id@),
    ensures
        guess_outcome(*library, pruned_games(old(store).games@, now, ttl), game_id@, request, now, final(store).games@, r),
{
    let ghost orig = store.games@;
    prune_games(store, now, ttl);
    let ghost before = store.games@;
    let p = match store.position(game_id) {
        Some(p) => p,
        None => {
            return Err(ApiError::not_found("Game not found"));
        },
    };
    proof {
        lemma_game_position(before, game_id@);
        let keep = |g: (String, ServerGame)| seen_since(g, if now >= ttl { (now - ttl) as u128 } else { 0 });
        assert(before.contains(before[p as int]));
        orig.lemma_filter_contains_rev(keep, before[p as int]);
        let k = choose|k: int| 0 <= k < orig.len() && orig[k] == before[p as int];
        assert(orig[k].0@ == game_id@);
    }
    store.touch(p, now);
    if request.round_index >= store.games[p].1.rounds.len() {
        return Err(ApiError::bad_request("Round not found"));
    }
    let kept = request.copy();
    let result = answer_guess(library, &store.games[p].1.scope, &store.games[p].1.rounds[request.round_index], request);
    match result {
        Ok(resp) => {
            let ghost mid = store.games@;
            store.record_guess(p, kept);
            proof {
                assert(guess_request_view(kept) == guess_request_view(request));
                assert(store.games@ =~= before.update(p as int, (before[p as int].0, (ServerGame {
                    scope: before[p as int].1.scope,
                    rounds: before[p as int].1.rounds,
                    last_seen_at: now,
                    progress: store.games@[p as int].1.progress,
                }))));
            }
            Ok(resp)
        },
        Err(e) => Err(e),
    }
}

/// Whether every game stored under an id can be shown whole: its chapters and verses can be
/// counted, and its highest total score fits in a `u32`.
pub open spec fn snapshot_ready(lib: ScriptureLibrary, games: Seq<(String, ServerGame)>, id: Seq<char>) -> bool {
    forall|k: int| 0 <= k < games.len() && (#[trigger] games[k]).0@ == id ==> {
        &&& scope_chapter_total(lib, games[k].1.scope@) <= usize::MAX
        &&& totals_fit(lib, games[k].1.progress.difficulty, games[k].1.scope@)
        &&& games[k].1.rounds@.len() * MAX_SCORE <= u32::MAX
    }
}

/// Whether every game stored under an id can be shown whole.
pub fn games_snapshot_ready(library: &ScriptureLibrary, store: &GameStore, game_id: &str) -> (r: bool)
    ensures
        r == snapshot_ready(*library, store.games@, game_id@),
{
    let mut k: usize = 0;
    while k < store.games.len()
        invariant
            k <= store.games@.len(),
            forall|j: int| 0 <= j < k && (#[trigger] store.games@[j]).0@ == game_id@ ==> {
                &&& scope_chapter_total(*library, store.games@[j].1.scope@) <= usize::MAX
                &&& totals_fit(*library, store.games@[j].1.progress.difficulty, store.games@[j].1.scope@)
                &&& store.games@[j].1.rounds@.len() * MAX_SCORE <= u32::MAX
            },
        decreases store.games.len() - k,
    {
        if crate::text::str_equal(store.games[k].0.as_str(), game_id) {
            let g = &store.games[k].1;
            if !library.chapters_fit(&g.scope) || !scope_totals_fit(library, g.progress.difficulty, &g.scope)
                || g.rounds.len() > 4294967 {
                return false;
            }
        }
        k = k + 1;
    }
    true
}

/// The guess recorded on a round, if any.
pub open spec fn stored_guess(progress: GameProgress, k: int) -> Option<GuessRequest> {
    if 0 <= k < progress.guesses@.len() { progress.guesses@[k] } else { None }
}

/// How a round's recorded guess is shown again: scored as it was when it was made, or left
/// out when the round has no answer verse or its canon is no longer loaded.
pub open spec fn guess_shown(
    lib: ScriptureLibrary,
    scope: Seq<(Canon, BookSelection)>,
    round: RoundAnswer,
    stored: Option<GuessRequest>,
    shown: Option<GuessResponse>,
) -> bool {
    match stored {
        None => shown is None,
        Some(request) => if round.passage.verses@.len() == 0 || lib.lookup(round.passage.canon) is None {
            shown is None
        } else {
            shown matches Some(resp) && guess_answer(lib, scope, round, request, resp)
        },
    }
}

/// What a snapshot of a stored game holds.
pub open spec fn snapshot_answer(lib: ScriptureLibrary, id: Seq<char>, g: ServerGame, resp: GameSnapshotResponse) -> bool {
    let n = g.rounds@.len();
    &&& resp.game_id@ == id
    &&& resp.rounds@.len() == n
    &&& forall|k: int| 0 <= k < n ==> {
        &&& (#[trigger] resp.rounds@[k]).text@ == g.rounds@[k].text@
        &&& guess_shown(lib, g.scope@, g.rounds@[k], stored_guess(g.progress, k), resp.rounds@[k].guess)
    }
    &&& resp.current_round_index == g.progress.current_round_index
    &&& resp.finished == (g.progress.current_round_index >= n)
    &&& resp.difficulty == g.progress.difficulty
    &&& resp.scope@ == g.scope@
    &&& metadata_view(resp.metadata@) == metadata_spec(lib, g.progress.difficulty, g.scope@)
    &&& resp.playable_verse_count == g.progress.playable_verse_count
    &&& resp.total_verse_count == scope_verse_total(lib, g.scope@)
    &&& resp.max_total_score == n * MAX_SCORE
}

/// How a request for a game's snapshot is answered, and what becomes of the store.
pub open spec fn snapshot_outcome(
    lib: ScriptureLibrary,
    before: Seq<(String, ServerGame)>,
    id: Seq<char>,
    now: u128,
    after: Seq<(String, ServerGame)>,
    r: Result<GameSnapshotResponse, ApiError>,
) -> bool {
    let p = game_position(before, id);
    if p == -1 {
        refused(r, ErrorStatus::NotFound, "Game not found"@) && after == before
    } else {
        &&& after == touched(before, p, now)
        &&& r matches Ok(resp) && snapshot_answer(lib, id, before[p].1, resp)
    }
}

/// Shows a stored game as it stands, so that it can be resumed: forgets the games not seen
/// within `ttl` of `now` and marks the game as seen.
pub fn game_snapshot(
    library: &ScriptureLibrary,
    store: &mut GameStore,
    game_id: &str,
    now: u128,
    ttl: u128,
) -> (r: Result<GameSnapshotResponse, ApiError>)
    requires
        snapshot_ready(*library, old(store).games@, game_id@),
    ensures
        snapshot_outcome(*library, pruned_games(old(store).games@, now, ttl), game_id@, now, final(store).games@, r),
{
    let ghost orig = store.games@;
    prune_games(store, now, ttl);
    let ghost before = store.games@;
    let p = match store.position(game_id) {
        Some(p) => p,
        None => {
            return Err(ApiError::not_found("Game not found"));
        },
    };
    proof {
        lemma_game_position(before, game_id@);
        let keep = |g: (String, ServerGame)| seen_since(g, if now >= ttl { (now - ttl) as u128 } else { 0 });
        assert(before.contains(before[p as int]));
        orig.lemma_filter_contains_rev(keep, before[p as int]);
        let k = choose|k: int| 0 <= k < orig.len() && orig[k] == before[p as int];
        assert(orig[k].0@ == game_id@);
    }
    store.touch(p, now);
    let g = &store.games[p].1;
    let ghost gb = before[p as int].1;
    let n = g.rounds.len();
    let mut rounds: Vec<SnapshotRound> = Vec::new();
    let mut k: usize = 0;
    while k < n
        invariant
            k <= n == g.rounds@.len(),
            g.scope == gb.scope,
            g.rounds == gb.rounds,
            g.progress == gb.progress,
            scope_chapter_total(*library, g.scope@) <= usize::MAX,
            rounds@.len() == k,
            forall|j: int| 0 <= j < k ==> {
                &&& (#[trigger] rounds@[j]).text@ == g.rounds@[j].text@
                &&& guess_shown(*library, g.scope@, g.rounds@[j], stored_guess(g.progress, j), rounds@[j].guess)
            },
        decreases n - k,
    {
        let round = &g.rounds[k];
        let mut guess: Option<GuessResponse> = None;
        if k < g.progress.guesses.len() {
            match &g.progress.guesses[k] {
                Some(request) => {
                    match answer_guess(library, &g.scope, round, request.copy()) {
                        Ok(resp) => {
                            guess = Some(resp);
                        },
                        Err(_) => {},
                    }
                },
                None => {},
            }
        }
        rounds.push(SnapshotRound { text: round.text.clone(), guess });
        k = k + 1;
    }
    let current = g.progress.current_round_index;
    Ok(GameSnapshotResponse {
        game_id: String::from_str(game_id),
        rounds,
        current_round_index: current,
        finished: current >= n,
        difficulty: g.progress.difficulty,
        scope: g.scope.copy(),
        metadata: metadata_for(library, g.progress.difficulty, &g.scope),
        playable_verse_count: g.progress.playable_verse_count,
        total_verse_count: total_verse_count(library, &g.scope),
        max_total_score: (n as u32) * MAX_SCORE,
    })
}

/// The round a game moves to from its current one: the next, or past the last once the
/// last round is reached.
pub open spec fn next_round(g: ServerGame) -> usize {
    if g.progress.current_round_index < g.rounds@.len() {
        (g.progress.current_round_index + 1) as usize
    } else {
        g.progress.current_round_index
    }
}

/// How a request to move a game on is answered, and what becomes of the store.
pub open spec fn advance_outcome(
    before: Seq<(String, ServerGame)>,
    id: Seq<char>,
    now: u128,
    after: Seq<(String, ServerGame)>,
    r: Result<AdvanceGameResponse, ApiError>,
) -> bool {
    let p = game_position(before, id);
    if p == -1 {
        refused(r, ErrorStatus::NotFound, "Game not found"@) && after == before
    } else {
        let g = before[p].1;
        let next = next_round(g);
        &&& after == before.update(p, (before[p].0, (ServerGame {
            scope: g.scope,
            rounds: g.rounds,
            last_seen_at: now,
            progress: GameProgress { current_round_index: next, ..g.progress },
        })))
        &&& r matches Ok(resp) && resp.current_round_index == next && resp.finished == (next >= g.rounds@.len())
    }
}

impl GameStore {
    /// Moves the game at a position to another round and marks it as seen at `now`.
    fn set_round(&mut self, i: usize, round: usize, now: u128)
        requires
            i < old(self).games@.len(),
        ensures
            final(self).games@ == old(self).games@.update(
                i as int,
                (old(self).games@[i as int].0, (ServerGame {
                    scope: old(self).games@[i as int].1.scope,
                    rounds: old(self).games@[i as int].1.rounds,
                    last_seen_at: now,
                    progress: GameProgress { current_round_index: round, ..old(self).games@[i as int].1.progress },
                })),
            ),
    {
        let (id, game) = self.games.remove(i);
        let ServerGame { scope, rounds, last_seen_at: _, progress } = game;
        let GameProgress { difficulty, playable_verse_count, current_round_index: _, guesses } = progress;
        let progress = GameProgress { difficulty, playable_verse_count, current_round_index: round, guesses };
        self.games.insert(i, (id, ServerGame { scope, rounds, last_seen_at: now, progress }));
        assert(self.games@ =~= old(self).games@.update(
            i as int,
            (old(self).games@[i as int].0, (ServerGame {
                scope: old(self).games@[i as int].1.scope,
                rounds: old(self).games@[i as int].1.rounds,
                last_seen_at: now,
                progress: GameProgress { current_round_index: round, ..old(self).games@[i as int].1.progress },
            })),
        ));
    }
}

/// Moves a stored game on from its current round: to the next one, or to finished after the
/// last. Forgets the games not seen within `ttl` of `now` first.
pub fn advance_game(store: &mut GameStore, game_id: &str, now: u128, ttl: u128) -> (r: Result<AdvanceGameResponse, ApiError>)
    ensures
        advance_outcome(pruned_games(old(store).games@, now, ttl), game_id@, now, final(store).games@, r),
{
    prune_games(store, now, ttl);
    let p = match store.position(game_id) {
        Some(p) => p,
        None => {
            return Err(ApiError::not_found("Game not found"));
        },
    };
    proof {
        lemma_game_position(store.games@, game_id@);
    }
    let n = store.games[p].1.rounds.len();
    let current = store.games[p].1.progress.current_round_index;
    let next = if current < n { current + 1 } else { current };
    store.set_round(p, next, now);
    Ok(AdvanceGameResponse { current_round_index: next, finished: next >= n })
}

/// Answers a request for the books and verse counts of a scope.
pub fn metadata_response(library: &ScriptureLibrary, request: &MetadataRequest) -> (r: Result<MetadataResponse, ApiError>)
    requires
        totals_fit(*library, request.difficulty, request.scope@),
    ensures
        request.scope@.len() == 0 ==> refused(r, ErrorStatus::BadRequest, "At least one scope item must be selected"@),
        request.scope@.len() > 0 ==> (r matches Ok(resp) && {
            &&& resp.difficulty == request.difficulty
            &&& resp.scope@ == request.scope@
            &&& metadata_view(resp.metadata@) == metadata_spec(*library, request.difficulty, request.scope@)
            &&& resp.playable_verse_count == scope_playable_total(*library, request.difficulty, request.scope@)
            &&& resp.total_verse_count == scope_verse_total(*library, request.scope@)
        }),
{
    if request.scope.canons.len() == 0 {
        return Err(ApiError::bad_request("At least one scope item must be selected"));
    }
    Ok(MetadataResponse {
        difficulty: request.difficulty,
        scope: request.scope.copy(),
        metadata: metadata_for(library, request.difficulty, &request.scope),
        playable_verse_count: playable_verse_count(library, request.difficulty, &request.scope),
        total_verse_count: total_verse_count(library, &request.scope),
    })
}

/// Whether no canon appears twice in a scope.
pub open spec fn distinct_canons(scope: Seq<(Canon, BookSelection)>) -> bool {
    forall|a: int, b: int| 0 <= a < b < scope.len() ==> (#[trigger] scope[a]).0 != (#[trigger] scope[b]).0
}

/// A picked verse comes from the pool of a loaded canon of the scope, within its selection.
pub proof fn lemma_pick_source(lib: ScriptureLibrary, d: Difficulty, scope: Seq<(Canon, BookSelection)>, index: int)
    requires
        0 <= index,
        verse_pick(lib, d, scope, index) is Ok,
    ensures
        exists|j: int| 0 <= j < scope.len() && (#[trigger] lib.lookup(scope[j].0)) is Some
            && verses_in_selection(lib.lookup(scope[j].0)->Some_0.pool_view(d), scope[j].1).contains(
                verse_pick(lib, d, scope, index)->Ok_0),
    decreases scope.len(),
{
    let s = lib.lookup(scope[0].0)->Some_0;
    let pool = verses_in_selection(s.pool_view(d), scope[0].1);
    let v = verse_pick(lib, d, scope, index)->Ok_0;
    if index < pool.len() {
        assert(pool.contains(pool[index]));
        assert(lib.lookup(scope[0].0) is Some);
    } else {
        let rest = scope.drop_first();
        lemma_pick_source(lib, d, rest, index - pool.len());
        let j = choose|j: int| 0 <= j < rest.len() && (#[trigger] lib.lookup(rest[j].0)) is Some
            && verses_in_selection(lib.lookup(rest[j].0)->Some_0.pool_view(d), rest[j].1).contains(v);
        assert(rest[j] == scope[j + 1]);
        assert(lib.lookup(scope[j + 1].0) is Some);
    }
}

/// An exact guess on a verse drawn for a random game scores the most points, when the
/// library is consistent and the scope, which names no canon twice, is fully loaded.
pub proof fn lemma_drawn_verse_exact_guess(lib: ScriptureLibrary, d: Difficulty, scope: Seq<(Canon, BookSelection)>, index: int)
    requires
        library_consistent(lib),
        scope_loaded(lib, scope),
        distinct_canons(scope),
        0 <= index,
        verse_pick(lib, d, scope, index) is Ok,
    ensures
        ({
            let v = verse_pick(lib, d, scope, index)->Ok_0;
            &&& score_spec(lib, scope, v.0, v.0.canon, v.0.book, v.0.chapter).points == crate::scoring::MAX_SCORE
            &&& score_spec(lib, scope, v.0, v.0.canon, v.0.book, v.0.chapter).chapter_distance == 0
        }),
{
    let v = verse_pick(lib, d, scope, index)->Ok_0;
    lemma_pick_source(lib, d, scope, index);
    let j = choose|j: int| 0 <= j < scope.len() && (#[trigger] lib.lookup(scope[j].0)) is Some
        && verses_in_selection(lib.lookup(scope[j].0)->Some_0.pool_view(d), scope[j].1).contains(v);
    let s = lib.lookup(scope[j].0)->Some_0;
    let keep = |x: (RefView, Seq<char>)| scope[j].1.includes(x.0.book);
    s.pool_view(d).lemma_filter_contains_rev(keep, v);
    let k = choose|k: int| 0 <= k < verses_in_selection(s.pool_view(d), scope[j].1).len()
        && verses_in_selection(s.pool_view(d), scope[j].1)[k] == v;
    s.pool_view(d).filter_lemma(keep);
    assert(keep(v));
    assert(s.pool_view(d) == crate::scriptures::pool_spec(s.verse_list(), d));
    lemma_pool_nonempty(s.verse_list(), d);
    assert(s.verse_list().contains(v));
    let m = choose|m: int| 0 <= m < s.verse_list().len() && s.verse_list()[m] == v;
    assert(v.0.canon == scope[j].0);
    lemma_scope_position(scope, v.0.canon);
    assert(scope_position(scope, v.0.canon) == j) by {
        let p = scope_position(scope, v.0.canon);
        if p < j {
            assert(scope[p].0 != scope[j].0);
        }
    }
    assert forall|i: int| 0 <= i <= scope_position(scope, v.0.canon) implies (#[trigger] lib.lookup(scope[i].0)) is Some by {
        assert(lib.lookup(scope[i].0) is Some);
    }
    lemma_verse_is_placed(lib, scope, v);
    lemma_exact_guess_gets_max(lib, scope, v.0);
}

/// An exact guess on a study passage that passed the checks scores the most points, when
/// the library is consistent and every canon of the scope is loaded.
pub proof fn lemma_study_passage_exact_guess(lib: ScriptureLibrary, scope: Seq<(Canon, BookSelection)>, p: PassageView, verse: u16)
    requires
        library_consistent(lib),
        scope_loaded(lib, scope),
        passage_problem(lib, scope, p) is None,
    ensures
        ({
            let answer = RefView { canon: p.canon, book: p.book, chapter: p.chapter, verse };
            &&& score_spec(lib, scope, answer, p.canon, p.book, p.chapter).points == crate::scoring::MAX_SCORE
            &&& score_spec(lib, scope, answer, p.canon, p.book, p.chapter).chapter_distance == 0
        }),
{
    let s = lib.lookup(p.canon)->Some_0;
    assert(find_verse(s.verse_list(), p.book, p.chapter, p.verses[0]) != -1);
    lemma_find_verse(s.verse_list(), p.book, p.chapter, p.verses[0]);
    let i = find_verse(s.verse_list(), p.book, p.chapter, p.verses[0]);
    let v = s.verse_list()[i];
    assert(s.verse_list().contains(v));
    assert(v.0.canon == p.canon);
    lemma_scope_position(scope, p.canon);
    assert forall|j: int| 0 <= j <= scope_position(scope, v.0.canon) implies (#[trigger] lib.lookup(scope[j].0)) is Some by {}
    lemma_verse_is_placed(lib, scope, v);
    let answer = RefView { canon: p.canon, book: p.book, chapter: p.chapter, verse };
    lemma_exact_guess_gets_max(lib, scope, answer);
}

/// Guessing the answer's own chapter on any round of a started random game scores the most
/// points, when the library is consistent and the scope, which names no canon twice, is
/// fully loaded.
pub proof fn lemma_random_game_exact_guess(
    lib: ScriptureLibrary,
    request: NewGameRequest,
    resp: NewGameResponse,
    g: ServerGame,
    now: u128,
    k: int,
)
    requires
        new_game_answer(lib, request, resp, g, now),
        request is Random,
        library_consistent(lib),
        scope_loaded(lib, request_parts(request).2),
        distinct_canons(request_parts(request).2),
        0 <= k < g.rounds@.len(),
    ensures
        ({
            let shown = rounds_view(g.rounds@)[k].0;
            let first = RefView { canon: shown.canon, book: shown.book, chapter: shown.chapter, verse: shown.verses[0] };
            score_spec(lib, g.scope@, first, shown.canon, shown.book, shown.chapter).points == crate::scoring::MAX_SCORE
        }),
{
    let (round_count, d, sc) = request_parts(request);
    let a = rounds_view(g.rounds@)[k];
    assert(drawn_within(lib, d, sc, resp.playable_verse_count as int, a));
    let i = choose|i: int| 0 <= i < resp.playable_verse_count as int && #[trigger] drawn_at(lib, d, sc, i, a);
    let x = verse_pick(lib, d, sc, i)->Ok_0;
    lemma_drawn_verse_exact_guess(lib, d, sc, i);
    assert(a.0.verses[0] == x.0.verse);
}

} // verus!
