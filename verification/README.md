# scripguessr

The logic of a scripture-placement guessing game, verified with Verus: players read a verse
and guess its canon, book and chapter, and are scored by how many chapters away they land.

## Layout

- `src/scoring.rs`: points for a chapter distance, and the distance's wording.
- `src/text.rs`: small string helpers (decimal numbers, trimming, parsing, searching).
- `src/scriptures.rs`: canons, presets and scopes; reference parsing; indexing a canon's
  verses into books, chapters and difficulty pools; the library of loaded canons and the
  score of a guess within a scope; passages.
- `src/study_sets.rs`: study passages and their labels, guess scopes and prompt policies,
  and the built-in doctrinal mastery sets.
- `src/stats.rs`: per-player statistics, best marks, per-book totals and marked verses.
- `src/atlas.rs`: the Book of Mormon atlas layers, eras and book chronology, and the
  practice set of chosen layers.
- `src/api.rs`: the requests and responses exchanged by client and server.
- `src/randomness.rs`: the random draws, taken from `rand`.
- `src/server.rs`: the server's game logic: validation, drawing rounds, the game store,
  pruning, scoring and recording guesses, snapshots for resuming a game, moving a game on,
  and scope metadata.
- `src/game.rs`: the client's state machine: setup, the guess path, rounds, study sets.
- `src/display.rs`: text the client shows (setup subtitle, guess feedback, atlas hits).
- `app/`: the HTTP server (axum), JSON forms of the types, and loading the scripture data.
- `tests/`: tests of the library.
