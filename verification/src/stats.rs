use vstd::prelude::*;

use crate::scriptures::{Difficulty, Reference};
use crate::study_sets::{passages_view, PassageView, StudyPassage};

verus! {

/// The stored statistics format this library reads and writes.
pub const STORAGE_VERSION: u8 = 2;

/// A score as a whole percentage of what was possible, rounded half up; `None` when nothing
/// was possible. Percentages too large for 32 bits are capped.
pub open spec fn percent_spec(score: u32, possible_score: u32) -> Option<u32> {
    if possible_score == 0 {
        None
    } else {
        let rounded = (200 * score + possible_score) / (2 * possible_score);
        Some(if rounded > u32::MAX { u32::MAX } else { rounded as u32 })
    }
}

pub fn percent(score: u32, possible_score: u32) -> (r: Option<u32>)
    ensures
        r == percent_spec(score, possible_score),
{
    if possible_score == 0 {
        None
    } else {
        let numerator = 200 * (score as u64) + (possible_score as u64);
        let rounded = numerator / (2 * (possible_score as u64));
        Some(if rounded > u32::MAX as u64 { u32::MAX } else { rounded as u32 })
    }
}

/// One finished game's result, as recorded among the bests.
#[derive(Clone, Copy, Debug, PartialEq, Structural)]
pub struct ScoreMark {
    pub score: u32,
    pub possible_score: u32,
    pub difficulty: Difficulty,
    pub round_count: usize,
}

pub open spec fn mark_percent(m: ScoreMark) -> u32 {
    match percent_spec(m.score, m.possible_score) {
        Some(p) => p,
        None => 0,
    }
}

impl ScoreMark {
    pub fn score_percent(self) -> (r: u32)
        ensures
            r == mark_percent(self),
    {
        match percent(self.score, self.possible_score) {
            Some(p) => p,
            None => 0,
        }
    }
}

/// Totals for the rounds whose answer lay in one book.
#[derive(Clone, Copy, Debug, PartialEq, Structural)]
pub struct BookStats {
    pub rounds_played: u32,
    pub total_score: u32,
    pub total_possible_score: u32,
}

impl Default for BookStats {
    fn default() -> (r: Self)
        ensures
            r == (BookStats { rounds_played: 0, total_score: 0, total_possible_score: 0 }),
    {
        BookStats { rounds_played: 0, total_score: 0, total_possible_score: 0 }
    }
}

/// Whether one more round fits in a book's totals.
pub open spec fn round_fits(b: BookStats, score: u32, possible_score: u32) -> bool {
    b.rounds_played < u32::MAX && b.total_score + score <= u32::MAX && b.total_possible_score + possible_score <= u32::MAX
}

/// A book's totals after one more round.
pub open spec fn record_round_spec(b: BookStats, score: u32, possible_score: u32) -> BookStats {
    BookStats {
        rounds_played: (b.rounds_played + 1) as u32,
        total_score: (b.total_score + score) as u32,
        total_possible_score: (b.total_possible_score + possible_score) as u32,
    }
}

pub open spec fn book_percent(b: BookStats) -> Option<u32> {
    percent_spec(b.total_score, b.total_possible_score)
}

impl BookStats {
    fn record_round(&mut self, score: u32, possible_score: u32)
        requires
            round_fits(*old(self), score, possible_score),
        ensures
            *final(self) == record_round_spec(*old(self), score, possible_score),
    {
        self.rounds_played = self.rounds_played + 1;
        self.total_score = self.total_score + score;
        self.total_possible_score = self.total_possible_score + possible_score;
    }

    pub fn average_percent(&self) -> (r: Option<u32>)
        ensures
            r == book_percent(*self),
    {
        percent(self.total_score, self.total_possible_score)
    }
}

/// The best result recorded for each difficulty.
#[derive(Clone, Copy, Debug, PartialEq, Structural)]
pub struct DifficultyMarks {
    pub easy: Option<ScoreMark>,
    pub normal: Option<ScoreMark>,
    pub hard: Option<ScoreMark>,
}

impl Default for DifficultyMarks {
    fn default() -> (r: Self)
        ensures
            r == (DifficultyMarks { easy: None, normal: None, hard: None }),
    {
        DifficultyMarks { easy: None, normal: None, hard: None }
    }
}

impl DifficultyMarks {
    pub open spec fn get_spec(self, d: Difficulty) -> Option<ScoreMark> {
        match d {
            Difficulty::Easy => self.easy,
            Difficulty::Normal => self.normal,
            Difficulty::Hard => self.hard,
        }
    }

    pub open spec fn set_spec(self, d: Difficulty, m: ScoreMark) -> DifficultyMarks {
        match d {
            Difficulty::Easy => DifficultyMarks { easy: Some(m), ..self },
            Difficulty::Normal => DifficultyMarks { normal: Some(m), ..self },
            Difficulty::Hard => DifficultyMarks { hard: Some(m), ..self },
        }
    }

    /// The best result at a difficulty.
    pub fn get(&self, d: &Difficulty) -> (r: Option<&ScoreMark>)
        ensures
            match r {
                Some(m) => self.get_spec(*d) == Some(*m),
                None => self.get_spec(*d) is None,
            },
    {
        match d {
            Difficulty::Easy => self.easy.as_ref(),
            Difficulty::Normal => self.normal.as_ref(),
            Difficulty::Hard => self.hard.as_ref(),
        }
    }

    fn set(&mut self, d: Difficulty, m: ScoreMark)
        ensures
            *final(self) == old(self).set_spec(d, m),
    {
        match d {
            Difficulty::Easy => self.easy = Some(m),
            Difficulty::Normal => self.normal = Some(m),
            Difficulty::Hard => self.hard = Some(m),
        }
    }
}

/// Whether `a` comes before `b` in code-point order (the order of `String`'s `Ord`, since
/// UTF-8 preserves it).
pub open spec fn chars_less(a: Seq<char>, b: Seq<char>) -> bool
    decreases a.len(),
{
    if a.len() == 0 {
        b.len() > 0
    } else if b.len() == 0 {
        false
    } else if a[0] < b[0] {
        true
    } else if a[0] > b[0] {
        false
    } else {
        chars_less(a.drop_first(), b.drop_first())
    }
}

/// Whether keys are in strictly increasing order.
pub open spec fn keys_increasing(entries: Seq<(Seq<char>, BookStats)>) -> bool {
    forall|i: int, j: int| 0 <= i < j < entries.len() ==> chars_less(entries[i].0, entries[j].0)
}

} // verus!

verus! {

proof fn lemma_chars_less_irreflexive(a: Seq<char>)
    ensures
        !chars_less(a, a),
    decreases a.len(),
{
    if a.len() > 0 {
        lemma_chars_less_irreflexive(a.drop_first());
    }
}

proof fn lemma_chars_less_asymmetric(a: Seq<char>, b: Seq<char>)
    ensures
        !(chars_less(a, b) && chars_less(b, a)),
    decreases a.len(),
{
    if a.len() > 0 && b.len() > 0 && a[0] == b[0] {
        lemma_chars_less_asymmetric(a.drop_first(), b.drop_first());
    }
}

proof fn lemma_chars_less_total(a: Seq<char>, b: Seq<char>)
    ensures
        a == b || chars_less(a, b) || chars_less(b, a),
    decreases a.len(),
{
    if a.len() > 0 && b.len() > 0 && a[0] == b[0] {
        lemma_chars_less_total(a.drop_first(), b.drop_first());
        if a.drop_first() == b.drop_first() {
            assert(a =~= seq![a[0]] + a.drop_first());
            assert(b =~= seq![b[0]] + b.drop_first());
        }
    } else if a.len() == 0 && b.len() == 0 {
        assert(a =~= b);
    }
}

proof fn lemma_chars_less_transitive(a: Seq<char>, b: Seq<char>, c: Seq<char>)
    requires
        chars_less(a, b),
        chars_less(b, c),
    ensures
        chars_less(a, c),
    decreases a.len(),
{
    if a.len() > 0 && b.len() > 0 && c.len() > 0 && a[0] == b[0] && b[0] == c[0] {
        lemma_chars_less_transitive(a.drop_first(), b.drop_first(), c.drop_first());
    }
}

/// Whether `a` comes before `b` in code-point order.
fn chars_less_exec(a: &Vec<char>, b: &Vec<char>) -> (r: bool)
    ensures
        r == chars_less(a@, b@),
{
    let mut i: usize = 0;
    assert(a@.skip(0) =~= a@);
    assert(b@.skip(0) =~= b@);
    while i < a.len() && i < b.len() && a[i] == b[i]
        invariant
            i <= a.len(),
            i <= b.len(),
            chars_less(a@, b@) == chars_less(a@.skip(i as int), b@.skip(i as int)),
        decreases a.len() - i,
    {
        proof {
            assert(a@.skip(i as int).drop_first() =~= a@.skip(i + 1));
            assert(b@.skip(i as int).drop_first() =~= b@.skip(i + 1));
            assert(a@.skip(i as int)[0] == a@[i as int]);
            assert(b@.skip(i as int)[0] == b@[i as int]);
        }
        i = i + 1;
    }
    proof {
        if i < a.len() {
            assert(a@.skip(i as int)[0] == a@[i as int]);
        }
        if i < b.len() {
            assert(b@.skip(i as int)[0] == b@[i as int]);
        }
    }
    if i == a.len() {
        i < b.len()
    } else if i == b.len() {
        false
    } else {
        a[i] < b[i]
    }
}

/// A book's totals after one more round, placing a new book at its place in key order.
pub open spec fn table_record(
    e: Seq<(Seq<char>, BookStats)>,
    b: Seq<char>,
    score: u32,
    possible_score: u32,
) -> Seq<(Seq<char>, BookStats)>
    decreases e.len(),
{
    let fresh = BookStats { rounds_played: 0, total_score: 0, total_possible_score: 0 };
    if e.len() == 0 {
        seq![(b, record_round_spec(fresh, score, possible_score))]
    } else if chars_less(b, e[0].0) {
        seq![(b, record_round_spec(fresh, score, possible_score))] + e
    } else if e[0].0 == b {
        seq![(b, record_round_spec(e[0].1, score, possible_score))] + e.drop_first()
    } else {
        seq![e[0]] + table_record(e.drop_first(), b, score, possible_score)
    }
}

/// The totals recorded for a book, if any.
pub open spec fn table_get(e: Seq<(Seq<char>, BookStats)>, b: Seq<char>) -> Option<BookStats>
    decreases e.len(),
{
    if e.len() == 0 {
        None
    } else if e[0].0 == b {
        Some(e[0].1)
    } else {
        table_get(e.drop_first(), b)
    }
}

/// The totals of a book, or empty totals.
pub open spec fn table_get_or_default(e: Seq<(Seq<char>, BookStats)>, b: Seq<char>) -> BookStats {
    match table_get(e, b) {
        Some(s) => s,
        None => BookStats { rounds_played: 0, total_score: 0, total_possible_score: 0 },
    }
}

proof fn lemma_table_record(e: Seq<(Seq<char>, BookStats)>, b: Seq<char>, score: u32, possible_score: u32)
    requires
        keys_increasing(e),
    ensures
        keys_increasing(table_record(e, b, score, possible_score)),
        table_get(table_record(e, b, score, possible_score), b)
            == Some(record_round_spec(table_get_or_default(e, b), score, possible_score)),
        forall|k: Seq<char>| k != b ==> #[trigger] table_get(table_record(e, b, score, possible_score), k) == table_get(e, k),
        forall|i: int| 0 <= i < table_record(e, b, score, possible_score).len() ==>
            (#[trigger] table_record(e, b, score, possible_score)[i]).0 == b
                || exists|j: int| 0 <= j < e.len() && e[j].0 == table_record(e, b, score, possible_score)[i].0,
    decreases e.len(),
{
    let fresh = BookStats { rounds_played: 0, total_score: 0, total_possible_score: 0 };
    let r = table_record(e, b, score, possible_score);
    if e.len() == 0 {
        assert(r.drop_first() =~= Seq::<(Seq<char>, BookStats)>::empty());
        assert(r[0].0 == b);
        assert forall|k: Seq<char>| k != b implies #[trigger] table_get(r, k) == table_get(e, k) by {
            assert(r[0].0 != k);
            assert(table_get(r.drop_first(), k) is None);
        }
    } else if chars_less(b, e[0].0) {
        assert forall|i: int, j: int| 0 <= i < j < r.len() implies chars_less(r[i].0, r[j].0) by {
            if i == 0 {
                if j > 1 {
                    lemma_chars_less_transitive(b, e[0].0, e[j - 1].0);
                }
            } else {
                assert(r[i] == e[i - 1] && r[j] == e[j - 1]);
            }
        }
        lemma_table_get_absent(e, b);
        assert(r[0].0 == b);
        assert(r.drop_first() =~= e);
        assert forall|k: Seq<char>| k != b implies #[trigger] table_get(r, k) == table_get(e, k) by {
            assert(r[0].0 != k);
        }
        assert forall|i: int| 0 <= i < r.len() implies
            (#[trigger] r[i]).0 == b || exists|j: int| 0 <= j < e.len() && e[j].0 == r[i].0 by {
            if i > 0 {
                assert(e[i - 1].0 == r[i].0);
            }
        }
    } else if e[0].0 == b {
        assert forall|i: int, j: int| 0 <= i < j < r.len() implies chars_less(r[i].0, r[j].0) by {
            assert(r[j] == e[j]);
            if i > 0 {
                assert(r[i] == e[i]);
            }
        }
        assert(r.drop_first() =~= e.drop_first());
        assert(r[0].0 == b);
        assert forall|k: Seq<char>| k != b implies #[trigger] table_get(r, k) == table_get(e, k) by {
            assert(r[0].0 != k);
            assert(e[0].0 != k);
        }
        assert forall|i: int| 0 <= i < r.len() implies
            (#[trigger] r[i]).0 == b || exists|j: int| 0 <= j < e.len() && e[j].0 == r[i].0 by {
            if i > 0 {
                assert(e[i].0 == r[i].0);
            }
        }
    } else {
        let t = e.drop_first();
        assert(keys_increasing(t)) by {
            assert forall|i: int, j: int| 0 <= i < j < t.len() implies chars_less(t[i].0, t[j].0) by {
                assert(t[i] == e[i + 1] && t[j] == e[j + 1]);
            }
        }
        lemma_table_record(t, b, score, possible_score);
        let rt = table_record(t, b, score, possible_score);
        assert(r == seq![e[0]] + rt);
        lemma_chars_less_total(b, e[0].0);
        assert(chars_less(e[0].0, b));
        assert forall|m: int| 0 <= m < rt.len() implies chars_less(e[0].0, #[trigger] rt[m].0) by {
            if rt[m].0 != b {
                let j = choose|j: int| 0 <= j < t.len() && t[j].0 == rt[m].0;
                assert(t[j] == e[j + 1]);
            }
        }
        assert forall|i: int, j: int| 0 <= i < j < r.len() implies chars_less(r[i].0, r[j].0) by {
            assert(r[j] == rt[j - 1]);
            if i > 0 {
                assert(r[i] == rt[i - 1]);
            }
        }
        assert(r.drop_first() =~= rt);
        assert(r[0] == e[0]);
        lemma_chars_less_irreflexive(b);
        assert(e[0].0 != b);
        assert forall|k: Seq<char>| k != b implies #[trigger] table_get(r, k) == table_get(e, k) by {
            if e[0].0 != k {
                assert(table_get(rt, k) == table_get(t, k));
            }
        }
        assert forall|i: int| 0 <= i < r.len() implies
            (#[trigger] r[i]).0 == b || exists|j: int| 0 <= j < e.len() && e[j].0 == r[i].0 by {
            if i == 0 {
                assert(e[0].0 == r[0].0);
            } else {
                assert(r[i] == rt[i - 1]);
                if rt[i - 1].0 != b {
                    let j = choose|j: int| 0 <= j < t.len() && t[j].0 == rt[i - 1].0;
                    assert(e[j + 1].0 == r[i].0);
                }
            }
        }
    }
}

/// A key smaller than every key of an ordered table is not in it.
proof fn lemma_table_get_absent(e: Seq<(Seq<char>, BookStats)>, b: Seq<char>)
    requires
        keys_increasing(e),
        e.len() > 0,
        chars_less(b, e[0].0),
    ensures
        table_get(e, b) is None,
    decreases e.len(),
{
    lemma_chars_less_irreflexive(b);
    assert(e[0].0 != b);
    if e.len() > 1 {
        let t = e.drop_first();
        lemma_chars_less_transitive(b, e[0].0, e[1].0);
        assert(keys_increasing(t)) by {
            assert forall|i: int, j: int| 0 <= i < j < t.len() implies chars_less(t[i].0, t[j].0) by {
                assert(t[i] == e[i + 1] && t[j] == e[j + 1]);
            }
        }
        lemma_table_get_absent(t, b);
    }
}

/// Per-book totals, kept in key order with each book once.
#[derive(Debug, PartialEq)]
pub struct BookTable {
    entries: Vec<(String, BookStats)>,
}

pub open spec fn entries_view(v: Seq<(String, BookStats)>) -> Seq<(Seq<char>, BookStats)> {
    v.map_values(|e: (String, BookStats)| (e.0@, e.1))
}

impl View for BookTable {
    type V = Seq<(Seq<char>, BookStats)>;

    closed spec fn view(&self) -> Seq<(Seq<char>, BookStats)> {
        entries_view(self.entries@)
    }
}

impl Clone for BookTable {
    fn clone(&self) -> (r: Self)
        ensures
            r@ == self@,
    {
        proof {
            use_type_invariant(self);
        }
        let mut entries: Vec<(String, BookStats)> = Vec::new();
        let mut i: usize = 0;
        while i < self.entries.len()
            invariant
                i <= self.entries.len(),
                entries_view(entries@) == entries_view(self.entries@).take(i as int),
            decreases self.entries.len() - i,
        {
            let ghost before = entries_view(entries@);
            let e = &self.entries[i];
            entries.push((e.0.clone(), e.1));
            assert(entries_view(entries@) =~= before.push(entries_view(self.entries@)[i as int]));
            assert(entries_view(self.entries@).take(i + 1) =~= entries_view(self.entries@).take(i as int).push(entries_view(self.entries@)[i as int]));
            i = i + 1;
        }
        assert(entries_view(self.entries@).take(self.entries.len() as int) =~= entries_view(self.entries@));
        BookTable { entries }
    }
}

impl BookTable {
    #[verifier::type_invariant]
    spec fn ordered(&self) -> bool {
        keys_increasing(entries_view(self.entries@))
    }

    /// Whether the entries are in key order, each book once (always so).
    pub fn is_ordered(&self) -> (r: bool)
        ensures
            r,
            keys_increasing(self@),
    {
        proof {
            use_type_invariant(self);
        }
        true
    }

    pub fn new() -> (r: Self)
        ensures
            r@ == Seq::<(Seq<char>, BookStats)>::empty(),
    {
        let r = BookTable { entries: Vec::new() };
        assert(r@ =~= Seq::<(Seq<char>, BookStats)>::empty());
        r
    }

    pub fn len(&self) -> (n: usize)
        ensures
            n == self@.len(),
    {
        self.entries.len()
    }

    /// The entry at a position in key order.
    pub fn entry(&self, i: usize) -> (r: (&String, &BookStats))
        requires
            i < self@.len(),
        ensures
            (r.0@, *r.1) == self@[i as int],
    {
        let e = &self.entries[i];
        (&e.0, &e.1)
    }

    /// The totals recorded for a book.
    pub fn get(&self, book: &str) -> (r: Option<&BookStats>)
        ensures
            match r {
                Some(s) => table_get(self@, book@) == Some(*s),
                None => table_get(self@, book@) is None,
            },
    {
        let ghost e = self@;
        let mut i: usize = 0;
        assert(e.skip(0) =~= e);
        while i < self.entries.len()
            invariant
                i <= self.entries.len(),
                e == entries_view(self.entries@),
                table_get(e, book@) == table_get(e.skip(i as int), book@),
            decreases self.entries.len() - i,
        {
            let ghost rest = e.skip(i as int);
            assert(rest[0] == (self.entries@[i as int].0@, self.entries@[i as int].1));
            assert(rest.drop_first() =~= e.skip(i + 1));
            if crate::text::str_equal(self.entries[i].0.as_str(), book) {
                return Some(&self.entries[i].1);
            }
            i = i + 1;
        }
        None
    }

    /// Adds a round to a book's totals, adding the book at its place in key order if new.
    fn record(&mut self, book: &String, score: u32, possible_score: u32)
        requires
            round_fits(table_get_or_default(old(self)@, book@), score, possible_score),
        ensures
            final(self)@ == table_record(old(self)@, book@, score, possible_score),
    {
        proof {
            use_type_invariant(&*self);
        }
        let ghost orig = self@;
        let book_chars = crate::text::chars_of(book.as_str());
        let mut entries: Vec<(String, BookStats)> = Vec::new();
        std::mem::swap(&mut entries, &mut self.entries);
        assert(entries_view(entries@) == orig);
        assert(orig.skip(0) =~= orig);
        assert(orig.take(0) + table_record(orig, book@, score, possible_score) =~= table_record(orig, book@, score, possible_score));
        let mut p: usize = 0;
        loop
            invariant
                p <= entries.len(),
                entries_view(entries@) == orig,
                keys_increasing(orig),
                book_chars@ == book@,
                table_record(orig, book@, score, possible_score)
                    == orig.take(p as int) + table_record(orig.skip(p as int), book@, score, possible_score),
                table_get(orig, book@) == table_get(orig.skip(p as int), book@),
            ensures
                p <= entries.len(),
                entries_view(entries@) == orig,
                keys_increasing(orig),
                book_chars@ == book@,
                table_record(orig, book@, score, possible_score)
                    == orig.take(p as int) + table_record(orig.skip(p as int), book@, score, possible_score),
                table_get(orig, book@) == table_get(orig.skip(p as int), book@),
                p < entries.len() ==> !chars_less(orig[p as int].0, book@),
            decreases entries.len() - p,
        {
            if p == entries.len() {
                break;
            }
            let key_chars = crate::text::chars_of(entries[p].0.as_str());
            assert(key_chars@ == orig[p as int].0);
            if !chars_less_exec(&key_chars, &book_chars) {
                break;
            }
            proof {
                let rest = orig.skip(p as int);
                assert(rest[0] == orig[p as int]);
                assert(rest.drop_first() =~= orig.skip(p + 1));
                lemma_chars_less_asymmetric(orig[p as int].0, book@);
                lemma_chars_less_irreflexive(book@);
                assert(orig.take(p + 1) =~= orig.take(p as int).push(orig[p as int]));
                assert(orig.take(p as int) + (seq![orig[p as int]] + table_record(orig.skip(p + 1), book@, score, possible_score))
                    =~= orig.take(p + 1) + table_record(orig.skip(p + 1), book@, score, possible_score));
            }
            p = p + 1;
        }
        let ghost rest = orig.skip(p as int);
        let fresh = BookStats { rounds_played: 0, total_score: 0, total_possible_score: 0 };
        let found = p < entries.len() && crate::text::str_equal(entries[p].0.as_str(), book.as_str());
        if found {
            let mut stats = entries[p].1;
            assert(rest[0] == orig[p as int]);
            assert(table_get(rest, book@) == Some(stats));
            stats.record_round(score, possible_score);
            entries.set(p, (book.clone(), stats));
            proof {
                assert(rest.drop_first() =~= orig.skip(p + 1));
                assert(entries_view(entries@) =~= orig.take(p as int) + (seq![(book@, stats)] + rest.drop_first()));
            }
        } else {
            proof {
                if p < entries.len() {
                    assert(rest[0] == orig[p as int]);
                    lemma_chars_less_total(book@, orig[p as int].0);
                    assert forall|i: int, j: int| 0 <= i < j < rest.len() implies chars_less(rest[i].0, rest[j].0) by {
                        assert(rest[i] == orig[i + p] && rest[j] == orig[j + p]);
                    }
                    lemma_table_get_absent(rest, book@);
                }
            }
            let mut stats = fresh;
            stats.record_round(score, possible_score);
            entries.insert(p, (book.clone(), stats));
            proof {
                assert(entries_view(entries@) =~= orig.take(p as int) + (seq![(book@, stats)] + rest));
            }
        }
        proof {
            lemma_table_record(orig, book@, score, possible_score);
        }
        self.entries = entries;
    }
}

} // verus!

verus! {

/// A verse marked for later review, with its text and the score it got.
#[derive(Clone, Debug, PartialEq)]
pub struct ReviewItem {
    pub passage: StudyPassage,
    pub text: String,
    pub score: u32,
}

impl View for ReviewItem {
    type V = (PassageView, Seq<char>, u32);

    open spec fn view(&self) -> (PassageView, Seq<char>, u32) {
        (self.passage@, self.text@, self.score)
    }
}

pub open spec fn review_view(v: Seq<ReviewItem>) -> Seq<(PassageView, Seq<char>, u32)> {
    v.map_values(|r: ReviewItem| r@)
}

impl ReviewItem {
    pub fn passage(&self) -> (r: StudyPassage)
        ensures
            r@ == self.passage@,
    {
        self.passage.copy()
    }

    /// A review item from the older stored form, which named one verse by reference and
    /// only sometimes the whole passage: the passage when given, else that single verse.
    pub fn from_legacy(reference: &Reference, passage: Option<StudyPassage>, text: String, score: u32) -> (r: ReviewItem)
        ensures
            r.text@ == text@,
            r.score == score,
            r.passage@ == match passage {
                Some(p) => p@,
                None => PassageView { canon: reference.canon, book: reference.book@, chapter: reference.chapter, verses: seq![reference.verse] },
            },
    {
        let passage = match passage {
            Some(p) => p,
            None => StudyPassage::single(reference),
        };
        ReviewItem { passage, text, score }
    }
}

/// One round of a finished game.
#[derive(Clone, Debug, PartialEq)]
pub struct FinishedRound {
    pub answer_book: String,
    pub score: u32,
    pub possible_score: u32,
}

/// A finished game, as recorded in the statistics.
#[derive(Clone, Debug, PartialEq)]
pub struct FinishedGame {
    pub difficulty: Difficulty,
    pub score: u32,
    pub possible_score: u32,
    pub rounds: Vec<FinishedRound>,
}

pub open spec fn rounds_view(v: Seq<FinishedRound>) -> Seq<(Seq<char>, u32, u32)> {
    v.map_values(|r: FinishedRound| (r.answer_book@, r.score, r.possible_score))
}

/// The book table after recording rounds in order.
pub open spec fn record_rounds(e: Seq<(Seq<char>, BookStats)>, rounds: Seq<(Seq<char>, u32, u32)>) -> Seq<(Seq<char>, BookStats)>
    decreases rounds.len(),
{
    if rounds.len() == 0 {
        e
    } else {
        let before = record_rounds(e, rounds.drop_last());
        table_record(before, rounds.last().0, rounds.last().1, rounds.last().2)
    }
}

/// Whether every round fits in its book's totals when recorded in order.
pub open spec fn rounds_fit(e: Seq<(Seq<char>, BookStats)>, rounds: Seq<(Seq<char>, u32, u32)>) -> bool
    decreases rounds.len(),
{
    if rounds.len() == 0 {
        true
    } else {
        &&& rounds_fit(e, rounds.drop_last())
        &&& round_fits(
            table_get_or_default(record_rounds(e, rounds.drop_last()), rounds.last().0),
            rounds.last().1,
            rounds.last().2,
        )
    }
}

/// The mark a finished game earns.
pub open spec fn mark_of(game: FinishedGame) -> ScoreMark {
    ScoreMark {
        score: game.score,
        possible_score: game.possible_score,
        difficulty: game.difficulty,
        round_count: game.rounds@.len() as usize,
    }
}

/// Whether a mark beats the best so far (any mark beats no mark).
pub open spec fn beats(mark: ScoreMark, best: Option<ScoreMark>) -> bool {
    match best {
        None => true,
        Some(b) => mark_percent(mark) > mark_percent(b),
    }
}

/// Whether the review list was toggled for an item: the item added when its passage was not
/// marked, else the first item for its passage taken out; nothing else changes.
pub open spec fn review_toggled(before: Stats, after: Stats, item: (PassageView, Seq<char>, u32), marked: bool) -> bool {
    let items = review_view(before.review_items@);
    &&& marked == forall|j: int| 0 <= j < items.len() ==> (#[trigger] items[j]).0 != item.0
    &&& marked ==> review_view(after.review_items@) == items.push(item)
    &&& !marked ==> exists|i: int| 0 <= i < items.len() && items[i].0 == item.0
        && (forall|j: int| 0 <= j < i ==> (#[trigger] items[j]).0 != item.0)
        && review_view(after.review_items@) == items.remove(i)
    &&& after == (Stats { review_items: after.review_items, ..before })
}

/// Whether statistics record a game with a mark over rounds (answer book, score, possible
/// score), and whether it set a new overall best.
pub open spec fn game_recorded(before: Stats, after: Stats, mark: ScoreMark, rounds: Seq<(Seq<char>, u32, u32)>, new_best: bool) -> bool {
    &&& new_best == beats(mark, before.best_score)
    &&& after.games_played == before.games_played + 1
    &&& after.rounds_played == before.rounds_played + (mark.round_count as u32)
    &&& after.total_score == before.total_score + mark.score
    &&& after.total_possible_score == before.total_possible_score + mark.possible_score
    &&& after.best_score == if new_best { Some(mark) } else { before.best_score }
    &&& after.best_by_difficulty == if beats(mark, before.best_by_difficulty.get_spec(mark.difficulty)) {
        before.best_by_difficulty.set_spec(mark.difficulty, mark)
    } else {
        before.best_by_difficulty
    }
    &&& after.books@ == record_rounds(before.books@, rounds)
    &&& after.review_items == before.review_items
}

/// The player's statistics.
#[derive(Clone, Debug, PartialEq)]
pub struct Stats {
    pub games_played: u32,
    pub rounds_played: u32,
    pub total_score: u32,
    pub total_possible_score: u32,
    pub best_score: Option<ScoreMark>,
    pub best_by_difficulty: DifficultyMarks,
    pub books: BookTable,
    pub review_items: Vec<ReviewItem>,
}

/// Whether recording a game keeps every total within 32 bits.
pub open spec fn record_fits(stats: Stats, game: FinishedGame) -> bool {
    &&& stats.games_played < u32::MAX
    &&& stats.rounds_played + (game.rounds@.len() as u32) <= u32::MAX
    &&& stats.total_score + game.score <= u32::MAX
    &&& stats.total_possible_score + game.possible_score <= u32::MAX
    &&& rounds_fit(stats.books@, rounds_view(game.rounds@))
}

/// Stored statistics are taken only when stored under the current storage version.
pub fn current_stored_stats(version: u8, data: Stats) -> (r: Option<Stats>)
    ensures
        r == if version == STORAGE_VERSION { Some(data) } else { None::<Stats> },
{
    if version == STORAGE_VERSION {
        Some(data)
    } else {
        None
    }
}

impl Default for Stats {
    fn default() -> (r: Self)
        ensures
            r.games_played == 0,
            r.rounds_played == 0,
            r.total_score == 0,
            r.total_possible_score == 0,
            r.best_score is None,
            r.best_by_difficulty == (DifficultyMarks { easy: None, normal: None, hard: None }),
            r.books@ == Seq::<(Seq<char>, BookStats)>::empty(),
            r.review_items@.len() == 0,
    {
        Stats {
            games_played: 0,
            rounds_played: 0,
            total_score: 0,
            total_possible_score: 0,
            best_score: None,
            best_by_difficulty: DifficultyMarks { easy: None, normal: None, hard: None },
            books: BookTable::new(),
            review_items: Vec::new(),
        }
    }
}

impl Stats {
    /// Records a finished game; returns whether it set a new overall best percentage.
    pub fn record_game(&mut self, game: FinishedGame) -> (new_overall_best: bool)
        requires
            record_fits(*old(self), game),
        ensures
            new_overall_best == beats(mark_of(game), old(self).best_score),
            final(self).games_played == old(self).games_played + 1,
            final(self).rounds_played == old(self).rounds_played + (game.rounds@.len() as u32),
            final(self).total_score == old(self).total_score + game.score,
            final(self).total_possible_score == old(self).total_possible_score + game.possible_score,
            final(self).best_score == if new_overall_best { Some(mark_of(game)) } else { old(self).best_score },
            final(self).best_by_difficulty == if beats(mark_of(game), old(self).best_by_difficulty.get_spec(game.difficulty)) {
                old(self).best_by_difficulty.set_spec(game.difficulty, mark_of(game))
            } else {
                old(self).best_by_difficulty
            },
            final(self).books@ == record_rounds(old(self).books@, rounds_view(game.rounds@)),
            final(self).review_items == old(self).review_items,
            game_recorded(*old(self), *final(self), mark_of(game), rounds_view(game.rounds@), new_overall_best),
    {
        self.games_played = self.games_played + 1;
        self.rounds_played = self.rounds_played + game.rounds.len() as u32;
        self.total_score = self.total_score + game.score;
        self.total_possible_score = self.total_possible_score + game.possible_score;
        let mark = ScoreMark {
            score: game.score,
            possible_score: game.possible_score,
            difficulty: game.difficulty,
            round_count: game.rounds.len(),
        };
        let new_overall_best = match self.best_score {
            Some(best) => mark.score_percent() > best.score_percent(),
            None => true,
        };
        if new_overall_best {
            self.best_score = Some(mark);
        }
        let replace = match self.best_by_difficulty.get(&game.difficulty) {
            Some(best) => mark.score_percent() > best.score_percent(),
            None => true,
        };
        if replace {
            self.best_by_difficulty.set(game.difficulty, mark);
        }
        let ghost start = self.books@;
        let ghost rounds = rounds_view(game.rounds@);
        let ghost g = self.games_played;
        let ghost rp = self.rounds_played;
        let ghost ts = self.total_score;
        let ghost tp = self.total_possible_score;
        let ghost bs = self.best_score;
        let ghost bd = self.best_by_difficulty;
        let ghost ri = self.review_items;
        let mut i: usize = 0;
        while i < game.rounds.len()
            invariant
                i <= game.rounds.len(),
                self.games_played == g,
                self.rounds_played == rp,
                self.total_score == ts,
                self.total_possible_score == tp,
                self.best_score == bs,
                self.best_by_difficulty == bd,
                self.review_items == ri,
                rounds == rounds_view(game.rounds@),
                rounds_fit(start, rounds),
                self.books@ == record_rounds(start, rounds.take(i as int)),
            decreases game.rounds.len() - i,
        {
            proof {
                assert(rounds.take(i + 1).drop_last() =~= rounds.take(i as int));
                assert(rounds.take(i + 1).last() == rounds[i as int]);
                lemma_rounds_fit_prefix(start, rounds, i + 1);
            }
            let round = &game.rounds[i];
            self.books.record(&round.answer_book, round.score, round.possible_score);
            i = i + 1;
        }
        assert(rounds.take(game.rounds.len() as int) =~= rounds);
        new_overall_best
    }

    /// Whether a game can be recorded with every total kept within 32 bits.
    pub fn can_record(&self, game: &FinishedGame) -> (r: bool)
        ensures
            r == record_fits(*self, *game),
    {
        if self.games_played == u32::MAX {
            return false;
        }
        let count = game.rounds.len() as u32;
        if self.rounds_played as u64 + count as u64 > u32::MAX as u64 {
            return false;
        }
        if self.total_score as u64 + game.score as u64 > u32::MAX as u64 {
            return false;
        }
        if self.total_possible_score as u64 + game.possible_score as u64 > u32::MAX as u64 {
            return false;
        }
        let ghost start = self.books@;
        let ghost rounds = rounds_view(game.rounds@);
        let mut table = self.books.clone();
        let mut i: usize = 0;
        while i < game.rounds.len()
            invariant
                i <= game.rounds@.len(),
                rounds == rounds_view(game.rounds@),
                start == self.books@,
                rounds_fit(start, rounds.take(i as int)),
                table@ == record_rounds(start, rounds.take(i as int)),
            decreases game.rounds.len() - i,
        {
            proof {
                assert(rounds.take(i + 1).drop_last() =~= rounds.take(i as int));
                assert(rounds.take(i + 1).last() == rounds[i as int]);
            }
            let round = &game.rounds[i];
            let current = match table.get(round.answer_book.as_str()) {
                Some(b) => *b,
                None => BookStats { rounds_played: 0, total_score: 0, total_possible_score: 0 },
            };
            if current.rounds_played == u32::MAX || current.total_score as u64 + round.score as u64 > u32::MAX as u64
                || current.total_possible_score as u64 + round.possible_score as u64 > u32::MAX as u64 {
                proof {
                    if rounds_fit(start, rounds) {
                        lemma_rounds_fit_prefix(start, rounds, i + 1);
                    }
                }
                return false;
            }
            table.record(&round.answer_book, round.score, round.possible_score);
            i = i + 1;
        }
        assert(rounds.take(game.rounds.len() as int) =~= rounds);
        true
    }

    pub fn average_percent(&self) -> (r: Option<u32>)
        ensures
            r == percent_spec(self.total_score, self.total_possible_score),
    {
        percent(self.total_score, self.total_possible_score)
    }

    pub fn is_marked_for_review(&self, passage: &StudyPassage) -> (r: bool)
        ensures
            r == exists|i: int| 0 <= i < self.review_items@.len() && (#[trigger] self.review_items@[i]).passage@ == passage@,
    {
        match self.review_position(passage) {
            Some(_) => true,
            None => false,
        }
    }

    /// The position of the first review item for a passage.
    fn review_position(&self, passage: &StudyPassage) -> (r: Option<usize>)
        ensures
            match r {
                Some(i) => i < self.review_items@.len() && self.review_items@[i as int].passage@ == passage@
                    && forall|j: int| 0 <= j < i ==> (#[trigger] self.review_items@[j]).passage@ != passage@,
                None => forall|j: int| 0 <= j < self.review_items@.len() ==> (#[trigger] self.review_items@[j]).passage@ != passage@,
            },
    {
        let mut i: usize = 0;
        while i < self.review_items.len()
            invariant
                i <= self.review_items.len(),
                forall|j: int| 0 <= j < i ==> (#[trigger] self.review_items@[j]).passage@ != passage@,
            decreases self.review_items.len() - i,
        {
            if self.review_items[i].passage.same_as(passage) {
                return Some(i);
            }
            i = i + 1;
        }
        None
    }

    /// Marks an item for review, or unmarks its passage when already marked; returns whether
    /// the passage is now marked.
    pub fn toggle_review_item(&mut self, item: ReviewItem) -> (marked: bool)
        ensures
            marked == forall|j: int| 0 <= j < old(self).review_items@.len()
                ==> (#[trigger] old(self).review_items@[j]).passage@ != item.passage@,
            marked ==> final(self).review_items@ == old(self).review_items@.push(item),
            !marked ==> exists|i: int| 0 <= i < old(self).review_items@.len()
                && old(self).review_items@[i].passage@ == item.passage@
                && (forall|j: int| 0 <= j < i ==> (#[trigger] old(self).review_items@[j]).passage@ != item.passage@)
                && final(self).review_items@ == old(self).review_items@.remove(i),
            review_toggled(*old(self), *final(self), item@, marked),
    {
        let ghost items = review_view(self.review_items@);
        match self.review_position(&item.passage) {
            Some(index) => {
                self.review_items.remove(index);
                proof {
                    assert(review_view(self.review_items@) =~= items.remove(index as int));
                    assert(items[index as int].0 == item@.0);
                    assert forall|j: int| 0 <= j < index implies (#[trigger] items[j]).0 != item@.0 by {
                        assert(items[j].0 == old(self).review_items@[j].passage@);
                    }
                }
                false
            },
            None => {
                self.review_items.push(item);
                proof {
                    assert(review_view(self.review_items@) =~= items.push(item@));
                    assert forall|j: int| 0 <= j < items.len() implies (#[trigger] items[j]).0 != item@.0 by {
                        assert(items[j].0 == old(self).review_items@[j].passage@);
                    }
                }
                true
            },
        }
    }

    /// Removes every review item for a passage; returns whether any was removed.
    pub fn remove_review_item(&mut self, passage: &StudyPassage) -> (removed: bool)
        ensures
            review_view(final(self).review_items@)
                == review_view(old(self).review_items@).filter(|r: (PassageView, Seq<char>, u32)| r.0 != passage@),
            removed == (final(self).review_items@.len() != old(self).review_items@.len()),
            removed == exists|i: int| 0 <= i < old(self).review_items@.len() && (#[trigger] old(self).review_items@[i]).passage@ == passage@,
            *final(self) == (Stats { review_items: final(self).review_items, ..*old(self) }),
    {
        let original_len = self.review_items.len();
        let ghost orig = review_view(self.review_items@);
        let ghost keep = |r: (PassageView, Seq<char>, u32)| r.0 != passage@;
        let mut kept: Vec<ReviewItem> = Vec::new();
        let mut i: usize = 0;
        while i < self.review_items.len()
            invariant
                i <= self.review_items.len(),
                orig == review_view(self.review_items@),
                keep == (|r: (PassageView, Seq<char>, u32)| r.0 != passage@),
                review_view(kept@) == orig.take(i as int).filter(keep),
            decreases self.review_items.len() - i,
        {
            proof {
                assert(orig.take(i + 1) =~= orig.take(i as int).push(orig[i as int]));
                orig.take(i as int).lemma_filter_push(orig[i as int], keep);
            }
            if !self.review_items[i].passage.same_as(passage) {
                let ghost before = review_view(kept@);
                let item = ReviewItem {
                    passage: self.review_items[i].passage.copy(),
                    text: self.review_items[i].text.clone(),
                    score: self.review_items[i].score,
                };
                kept.push(item);
                assert(review_view(kept@) =~= before.push(orig[i as int]));
            }
            i = i + 1;
        }
        assert(orig.take(self.review_items.len() as int) =~= orig);
        self.review_items = kept;
        let removed = self.review_items.len() != original_len;
        proof {
            orig.lemma_filter_len(keep);
            assert(review_view(self.review_items@).len() == self.review_items@.len());
            if exists|i: int| 0 <= i < old(self).review_items@.len() && (#[trigger] old(self).review_items@[i]).passage@ == passage@ {
                let i = choose|i: int| 0 <= i < old(self).review_items@.len() && (#[trigger] old(self).review_items@[i]).passage@ == passage@;
                assert(orig[i].0 == passage@);
                lemma_filter_drops(orig, keep, i);
            } else {
                assert forall|j: int| 0 <= j < orig.len() implies keep(#[trigger] orig[j]) by {
                    assert(orig[j].0 == old(self).review_items@[j].passage@);
                }
                lemma_filter_keeps_all(orig, keep);
            }
        }
        removed
    }
}

proof fn lemma_rounds_fit_prefix(e: Seq<(Seq<char>, BookStats)>, rounds: Seq<(Seq<char>, u32, u32)>, k: int)
    requires
        rounds_fit(e, rounds),
        0 <= k <= rounds.len(),
    ensures
        rounds_fit(e, rounds.take(k)),
    decreases rounds.len() - k,
{
    if k < rounds.len() {
        assert(rounds.drop_last() =~= rounds.take(rounds.len() - 1));
        assert(rounds.drop_last().take(k) =~= rounds.take(k));
        lemma_rounds_fit_prefix(e, rounds.drop_last(), k);
    } else {
        assert(rounds.take(k) =~= rounds);
    }
}

/// Filtering out an element makes the sequence shorter.
proof fn lemma_filter_drops<A>(s: Seq<A>, keep: spec_fn(A) -> bool, i: int)
    requires
        0 <= i < s.len(),
        !keep(s[i]),
    ensures
        s.filter(keep).len() < s.len(),
    decreases s.len(),
{
    reveal(Seq::filter);
    if i == s.len() - 1 {
        s.drop_last().lemma_filter_len(keep);
    } else {
        lemma_filter_drops(s.drop_last(), keep, i);
    }
}

/// Filtering keeps everything when every element passes.
proof fn lemma_filter_keeps_all<A>(s: Seq<A>, keep: spec_fn(A) -> bool)
    requires
        forall|i: int| 0 <= i < s.len() ==> keep(#[trigger] s[i]),
    ensures
        s.filter(keep) == s,
    decreases s.len(),
{
    reveal(Seq::filter);
    if s.len() > 0 {
        lemma_filter_keeps_all(s.drop_last(), keep);
        assert(s.drop_last().push(s.last()) =~= s);
    } else {
        assert(s.filter(keep) =~= s);
    }
}

} // verus!

verus! {

/// The key books are ranked by: their average percentage, books without one last.
pub open spec fn weakness_key(b: BookStats) -> u32 {
    match book_percent(b) {
        Some(p) => p,
        None => u32::MAX,
    }
}

/// Inserts an entry after every entry whose key is not larger.
pub open spec fn insert_by_key(s: Seq<(Seq<char>, BookStats)>, x: (Seq<char>, BookStats)) -> Seq<(Seq<char>, BookStats)>
    decreases s.len(),
{
    if s.len() == 0 {
        seq![x]
    } else if weakness_key(x.1) < weakness_key(s[0].1) {
        seq![x] + s
    } else {
        seq![s[0]] + insert_by_key(s.drop_first(), x)
    }
}

/// Entries stably sorted by key: equal keys keep their order.
pub open spec fn sort_by_weakness(s: Seq<(Seq<char>, BookStats)>) -> Seq<(Seq<char>, BookStats)>
    decreases s.len(),
{
    if s.len() == 0 {
        Seq::empty()
    } else {
        insert_by_key(sort_by_weakness(s.drop_last()), s.last())
    }
}

/// The weakest books: those with rounds played, by average percentage (ties in key order),
/// at most `limit` of them.
pub open spec fn weakest_spec(entries: Seq<(Seq<char>, BookStats)>, limit: nat) -> Seq<(Seq<char>, BookStats)> {
    let ranked = sort_by_weakness(entries.filter(|e: (Seq<char>, BookStats)| e.1.rounds_played > 0));
    if limit < ranked.len() { ranked.take(limit as int) } else { ranked }
}

pub open spec fn pairs_view<'a>(v: Seq<(&'a String, &'a BookStats)>) -> Seq<(Seq<char>, BookStats)> {
    v.map_values(|e: (&'a String, &'a BookStats)| (e.0@, *e.1))
}

fn insert_by_key_vec<'a>(v: &mut Vec<(&'a String, &'a BookStats)>, x: (&'a String, &'a BookStats))
    ensures
        pairs_view(final(v)@) == insert_by_key(pairs_view(old(v)@), (x.0@, *x.1)),
{
    let ghost orig = pairs_view(v@);
    let ghost xv = (x.0@, *x.1);
    let key = match x.1.average_percent() {
        Some(p) => p,
        None => u32::MAX,
    };
    assert(orig.skip(0) =~= orig);
    assert(orig.take(0) + insert_by_key(orig, xv) =~= insert_by_key(orig, xv));
    let mut p: usize = 0;
    loop
        invariant
            p <= v.len(),
            pairs_view(v@) == orig,
            xv == (x.0@, *x.1),
            key == weakness_key(*x.1),
            insert_by_key(orig, xv) == orig.take(p as int) + insert_by_key(orig.skip(p as int), xv),
        ensures
            p <= v.len(),
            pairs_view(v@) == orig,
            insert_by_key(orig, xv) == orig.take(p as int) + insert_by_key(orig.skip(p as int), xv),
            p < v.len() ==> key < weakness_key(orig[p as int].1),
        decreases v.len() - p,
    {
        if p == v.len() {
            break;
        }
        let other = match v[p].1.average_percent() {
            Some(q) => q,
            None => u32::MAX,
        };
        assert(other == weakness_key(orig[p as int].1));
        if key < other {
            break;
        }
        proof {
            let rest = orig.skip(p as int);
            assert(rest[0] == orig[p as int]);
            assert(rest.drop_first() =~= orig.skip(p + 1));
            assert(orig.take(p + 1) =~= orig.take(p as int).push(orig[p as int]));
            assert(orig.take(p as int) + (seq![orig[p as int]] + insert_by_key(orig.skip(p + 1), xv))
                =~= orig.take(p + 1) + insert_by_key(orig.skip(p + 1), xv));
        }
        p = p + 1;
    }
    let ghost rest = orig.skip(p as int);
    v.insert(p, x);
    proof {
        if p < orig.len() {
            assert(rest[0] == orig[p as int]);
        }
        assert(pairs_view(v@) =~= orig.take(p as int) + (seq![xv] + rest));
    }
}

impl Stats {
    /// The books with the lowest average percentage, weakest first, at most `limit` of them.
    pub fn weakest_books(&self, limit: usize) -> (r: Vec<(&String, &BookStats)>)
        ensures
            pairs_view(r@) == weakest_spec(self.books@, limit as nat),
    {
        let ghost entries = self.books@;
        let ghost played = |e: (Seq<char>, BookStats)| e.1.rounds_played > 0;
        let n = self.books.len();
        let mut filtered: Vec<(&String, &BookStats)> = Vec::new();
        let mut i: usize = 0;
        while i < n
            invariant
                i <= n,
                n == entries.len(),
                entries == self.books@,
                played == (|e: (Seq<char>, BookStats)| e.1.rounds_played > 0),
                pairs_view(filtered@) == entries.take(i as int).filter(played),
            decreases n - i,
        {
            proof {
                assert(entries.take(i + 1) =~= entries.take(i as int).push(entries[i as int]));
                entries.take(i as int).lemma_filter_push(entries[i as int], played);
            }
            let (name, stats) = self.books.entry(i);
            if stats.rounds_played > 0 {
                let ghost before = pairs_view(filtered@);
                filtered.push((name, stats));
                assert(pairs_view(filtered@) =~= before.push(entries[i as int]));
            }
            i = i + 1;
        }
        assert(entries.take(n as int) =~= entries);
        let ghost kept = pairs_view(filtered@);
        let mut ranked: Vec<(&String, &BookStats)> = Vec::new();
        let mut k: usize = 0;
        while k < filtered.len()
            invariant
                k <= filtered.len(),
                kept == pairs_view(filtered@),
                pairs_view(ranked@) == sort_by_weakness(kept.take(k as int)),
            decreases filtered.len() - k,
        {
            proof {
                assert(kept.take(k + 1).drop_last() =~= kept.take(k as int));
                assert(kept.take(k + 1).last() == kept[k as int]);
            }
            insert_by_key_vec(&mut ranked, filtered[k]);
            k = k + 1;
        }
        assert(kept.take(filtered.len() as int) =~= kept);
        if limit < ranked.len() {
            let ghost full = pairs_view(ranked@);
            ranked.truncate(limit);
            assert(pairs_view(ranked@) =~= full.take(limit as int));
        }
        ranked
    }
}

} // verus!

verus! {

/// Marking a passage that is not yet marked and then toggling it again restores the list.
pub proof fn lemma_toggle_twice_restores(items: Seq<ReviewItem>, item: ReviewItem)
    requires
        forall|j: int| 0 <= j < items.len() ==> (#[trigger] items[j]).passage@ != item.passage@,
    ensures
        items.push(item)[items.len() as int].passage@ == item.passage@,
        forall|j: int| 0 <= j < items.len() ==> (#[trigger] items.push(item)[j]).passage@ != item.passage@,
        items.push(item).remove(items.len() as int) == items,
{
    assert(items.push(item).remove(items.len() as int) =~= items);
}

/// Recording a game never lowers the best percentage: the best afterwards is at least the
/// best before and at least the new game's.
pub proof fn lemma_best_never_drops(best: Option<ScoreMark>, mark: ScoreMark)
    ensures
        ({
            let after = if beats(mark, best) { Some(mark) } else { best };
            &&& after is Some
            &&& mark_percent(after->0) >= mark_percent(mark)
            &&& (best matches Some(b) ==> mark_percent(after->0) >= mark_percent(b))
        }),
{
}

proof fn lemma_insert_by_key_sorted(s: Seq<(Seq<char>, BookStats)>, x: (Seq<char>, BookStats))
    requires
        forall|i: int, j: int| 0 <= i < j < s.len() ==> weakness_key(s[i].1) <= weakness_key(s[j].1),
    ensures
        forall|i: int, j: int| 0 <= i < j < insert_by_key(s, x).len()
            ==> weakness_key(insert_by_key(s, x)[i].1) <= weakness_key(insert_by_key(s, x)[j].1),
        insert_by_key(s, x).len() == s.len() + 1,
        forall|k: int| 0 <= k < insert_by_key(s, x).len() ==> (#[trigger] insert_by_key(s, x)[k] == x || s.contains(insert_by_key(s, x)[k])),
    decreases s.len(),
{
    let r = insert_by_key(s, x);
    if s.len() == 0 {
    } else if weakness_key(x.1) < weakness_key(s[0].1) {
        assert forall|i: int, j: int| 0 <= i < j < r.len() implies weakness_key(r[i].1) <= weakness_key(r[j].1) by {
            if i == 0 {
                assert(r[j] == s[j - 1]);
                if j > 1 {
                    assert(weakness_key(s[0].1) <= weakness_key(s[j - 1].1));
                }
            } else {
                assert(r[i] == s[i - 1] && r[j] == s[j - 1]);
            }
        }
        assert forall|k: int| 0 <= k < r.len() implies (#[trigger] r[k] == x || s.contains(r[k])) by {
            if k > 0 {
                assert(r[k] == s[k - 1]);
            }
        }
    } else {
        let t = s.drop_first();
        lemma_insert_by_key_sorted(t, x);
        let rt = insert_by_key(t, x);
        assert forall|m: int| 0 <= m < rt.len() implies weakness_key(s[0].1) <= weakness_key(#[trigger] rt[m].1) by {
            if rt[m] != x {
                let j = choose|j: int| 0 <= j < t.len() && t[j] == rt[m];
                assert(t[j] == s[j + 1]);
            }
        }
        assert forall|i: int, j: int| 0 <= i < j < r.len() implies weakness_key(r[i].1) <= weakness_key(r[j].1) by {
            assert(r[j] == rt[j - 1]);
            if i > 0 {
                assert(r[i] == rt[i - 1]);
            }
        }
        assert forall|k: int| 0 <= k < r.len() implies (#[trigger] r[k] == x || s.contains(r[k])) by {
            if k == 0 {
                assert(r[0] == s[0]);
            } else {
                assert(r[k] == rt[k - 1]);
                if rt[k - 1] != x {
                    let j = choose|j: int| 0 <= j < t.len() && t[j] == rt[k - 1];
                    assert(s[j + 1] == r[k]);
                }
            }
        }
    }
}

/// The ranking of weak books is ordered by average percentage, weakest first, and keeps
/// every book it ranks.
pub proof fn lemma_weakest_sorted(s: Seq<(Seq<char>, BookStats)>)
    ensures
        forall|i: int, j: int| 0 <= i < j < sort_by_weakness(s).len()
            ==> weakness_key(sort_by_weakness(s)[i].1) <= weakness_key(sort_by_weakness(s)[j].1),
        sort_by_weakness(s).len() == s.len(),
    decreases s.len(),
{
    if s.len() > 0 {
        lemma_weakest_sorted(s.drop_last());
        lemma_insert_by_key_sorted(sort_by_weakness(s.drop_last()), s.last());
    }
}


proof fn lemma_insert_by_key_keeps(s: Seq<(Seq<char>, BookStats)>, x: (Seq<char>, BookStats))
    ensures
        insert_by_key(s, x).contains(x),
        forall|k: int| 0 <= k < s.len() ==> insert_by_key(s, x).contains(#[trigger] s[k]),
        forall|k: int| 0 <= k < insert_by_key(s, x).len() ==> (#[trigger] insert_by_key(s, x)[k] == x || s.contains(insert_by_key(s, x)[k])),
        insert_by_key(s, x).len() == s.len() + 1,
    decreases s.len(),
{
    let r = insert_by_key(s, x);
    if s.len() == 0 {
        assert(r[0] == x);
    } else if weakness_key(x.1) < weakness_key(s[0].1) {
        assert(r[0] == x);
        assert forall|k: int| 0 <= k < s.len() implies r.contains(#[trigger] s[k]) by {
            assert(r[k + 1] == s[k]);
        }
        assert forall|k: int| 0 <= k < r.len() implies (#[trigger] r[k] == x || s.contains(r[k])) by {
            if k > 0 {
                assert(r[k] == s[k - 1]);
            }
        }
    } else {
        let t = s.drop_first();
        lemma_insert_by_key_keeps(t, x);
        let rt = insert_by_key(t, x);
        assert(r == seq![s[0]] + rt);
        let kx = choose|k: int| 0 <= k < rt.len() && rt[k] == x;
        assert(r[kx + 1] == x);
        assert forall|k: int| 0 <= k < s.len() implies r.contains(#[trigger] s[k]) by {
            if k == 0 {
                assert(r[0] == s[0]);
            } else {
                assert(s[k] == t[k - 1]);
                assert(rt.contains(t[k - 1]));
                let m = choose|m: int| 0 <= m < rt.len() && rt[m] == t[k - 1];
                assert(r[m + 1] == s[k]);
            }
        }
        assert forall|k: int| 0 <= k < r.len() implies (#[trigger] r[k] == x || s.contains(r[k])) by {
            if k == 0 {
                assert(s[0] == r[0]);
            } else {
                assert(r[k] == rt[k - 1]);
                if rt[k - 1] != x {
                    assert(t.contains(rt[k - 1]));
                    let m = choose|m: int| 0 <= m < t.len() && t[m] == rt[k - 1];
                    assert(s[m + 1] == t[m]);
                }
            }
        }
    }
}

proof fn lemma_sort_by_weakness_contents(s: Seq<(Seq<char>, BookStats)>)
    ensures
        sort_by_weakness(s).len() == s.len(),
        forall|y: (Seq<char>, BookStats)| sort_by_weakness(s).contains(y) <==> s.contains(y),
    decreases s.len(),
{
    if s.len() > 0 {
        let t = s.drop_last();
        lemma_sort_by_weakness_contents(t);
        let st = sort_by_weakness(t);
        lemma_insert_by_key_keeps(st, s.last());
        let r = sort_by_weakness(s);
        assert forall|y: (Seq<char>, BookStats)| r.contains(y) <==> s.contains(y) by {
            if r.contains(y) {
                let k = choose|k: int| 0 <= k < r.len() && r[k] == y;
                if y != s.last() {
                    assert(st.contains(y));
                    assert(t.contains(y));
                    let m = choose|m: int| 0 <= m < t.len() && t[m] == y;
                    assert(s[m] == y);
                } else {
                    assert(s[s.len() - 1] == y);
                }
            }
            if s.contains(y) {
                let m = choose|m: int| 0 <= m < s.len() && s[m] == y;
                if m < s.len() - 1 {
                    assert(t[m] == y);
                    assert(t.contains(y));
                    assert(st.contains(y));
                    let k = choose|k: int| 0 <= k < st.len() && st[k] == y;
                    assert(r.contains(st[k]));
                }
            }
        }
    }
}

/// The weakest books are at most `limit` of the books that have rounds played (all of them when
/// there are no more than `limit`), each taken from the table, weakest first.
pub proof fn lemma_weakest_books_law(entries: Seq<(Seq<char>, BookStats)>, limit: nat)
    ensures
        ({
            let played = entries.filter(|e: (Seq<char>, BookStats)| e.1.rounds_played > 0);
            let r = weakest_spec(entries, limit);
            &&& r.len() == if limit < played.len() { limit } else { played.len() }
            &&& forall|i: int| 0 <= i < r.len() ==> entries.contains(#[trigger] r[i]) && r[i].1.rounds_played > 0
            &&& forall|i: int, j: int| 0 <= i < j < r.len() ==> weakness_key(#[trigger] r[i].1) <= weakness_key(#[trigger] r[j].1)
            &&& played.len() <= limit ==> forall|e: (Seq<char>, BookStats)| entries.contains(e) && e.1.rounds_played > 0 ==> r.contains(e)
        }),
{
    let keep = |e: (Seq<char>, BookStats)| e.1.rounds_played > 0;
    let played = entries.filter(keep);
    let ranked = sort_by_weakness(played);
    lemma_weakest_sorted(played);
    lemma_sort_by_weakness_contents(played);
    let r = weakest_spec(entries, limit);
    assert forall|i: int| 0 <= i < r.len() implies entries.contains(#[trigger] r[i]) && r[i].1.rounds_played > 0 by {
        assert(r[i] == ranked[i]);
        assert(ranked.contains(ranked[i]));
        assert(played.contains(r[i]));
        entries.lemma_filter_contains_rev(keep, r[i]);
        entries.filter_lemma(keep);
        let m = choose|m: int| 0 <= m < played.len() && played[m] == r[i];
        assert(keep(played[m]));
    }
    assert forall|i: int, j: int| 0 <= i < j < r.len() implies weakness_key(#[trigger] r[i].1) <= weakness_key(#[trigger] r[j].1) by {
        assert(r[i] == ranked[i] && r[j] == ranked[j]);
    }
    if played.len() <= limit {
        assert forall|e: (Seq<char>, BookStats)| entries.contains(e) && e.1.rounds_played > 0 implies r.contains(e) by {
            let m = choose|m: int| 0 <= m < entries.len() && entries[m] == e;
            entries.lemma_filter_contains(keep, m);
            assert(ranked.contains(e));
        }
    }
}

} // verus!
