use vstd::prelude::*;

use crate::scoring::Score;
use crate::scriptures::{BookInfo, Canon, Difficulty, GameScope};
use crate::study_sets::{PromptPolicy, StudyPassage};

verus! {

/// A request to start a game: random verses from a scope, or the passages of a study set.
#[derive(Clone, Debug, PartialEq)]
pub enum NewGameRequest {
    Random {
        round_count: usize,
        difficulty: Difficulty,
        scope: GameScope,
    },
    Study {
        round_count: usize,
        difficulty: Difficulty,
        scope: GameScope,
        passages: Vec<StudyPassage>,
        prompt_policy: PromptPolicy,
    },
}

#[derive(Clone, Debug, PartialEq)]
pub struct NewGameResponse {
    pub game_id: String,
    pub rounds: Vec<RoundPrompt>,
    pub difficulty: Difficulty,
    pub scope: GameScope,
    pub metadata: Vec<CanonMetadata>,
    pub playable_verse_count: usize,
    pub total_verse_count: usize,
    pub max_total_score: u32,
}

#[derive(Clone, Debug, PartialEq)]
pub struct GameSnapshotResponse {
    pub game_id: String,
    pub rounds: Vec<SnapshotRound>,
    pub current_round_index: usize,
    pub finished: bool,
    pub difficulty: Difficulty,
    pub scope: GameScope,
    pub metadata: Vec<CanonMetadata>,
    pub playable_verse_count: usize,
    pub total_verse_count: usize,
    pub max_total_score: u32,
}

#[derive(Clone, Debug, PartialEq)]
pub struct SnapshotRound {
    pub text: String,
    pub guess: Option<GuessResponse>,
}

#[derive(Clone, Debug, PartialEq)]
pub struct AdvanceGameResponse {
    pub current_round_index: usize,
    pub finished: bool,
}

#[derive(Clone, Debug, PartialEq)]
pub struct MetadataRequest {
    pub difficulty: Difficulty,
    pub scope: GameScope,
}

#[derive(Clone, Debug, PartialEq)]
pub struct MetadataResponse {
    pub difficulty: Difficulty,
    pub scope: GameScope,
    pub metadata: Vec<CanonMetadata>,
    pub playable_verse_count: usize,
    pub total_verse_count: usize,
}

#[derive(Clone, Debug, PartialEq)]
pub struct RoundPrompt {
    pub text: String,
}

/// The books of a canon and how many of its verses are in play.
#[derive(Clone, Debug, PartialEq)]
pub struct CanonMetadata {
    pub canon: Canon,
    pub books: Vec<BookInfo>,
    pub playable_verse_count: usize,
    pub total_verse_count: usize,
}

#[derive(Clone, Debug, PartialEq)]
pub struct GuessRequest {
    pub round_index: usize,
    pub canon: Canon,
    pub book: String,
    pub chapter: u16,
}

#[derive(Clone, Debug, PartialEq)]
pub struct GuessResponse {
    pub answer: StudyPassage,
    pub source_passage: StudyPassage,
    pub guess: GuessReference,
    pub score: Score,
    pub chapter_verses: Vec<ChapterVerse>,
}

#[derive(Clone, Debug, PartialEq)]
pub struct GuessReference {
    pub canon: Canon,
    pub book: String,
    pub chapter: u16,
}

#[derive(Clone, Debug, PartialEq)]
pub struct ChapterVerse {
    pub verse: u16,
    pub text: String,
}

#[derive(Clone, Debug, PartialEq)]
pub struct ChapterRequest {
    pub canon: Canon,
    pub book: String,
    pub chapter: u16,
}

#[derive(Clone, Debug, PartialEq)]
pub struct ChapterResponse {
    pub verses: Vec<ChapterVerse>,
}

} // verus!
