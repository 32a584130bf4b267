use vstd::prelude::*;

use crate::scoring::{points_for_distance, Score};
use crate::text::{
    all_ascii_digits, char_is_alphanumeric, char_is_whitespace, chars_contain, chars_of,
    contains_seq, is_alphanumeric_char, is_whitespace_char, last_index_of, lowercase,
    parse_u16, parse_u16_spec, push_char, rfind_char, str_equal, str_to_lowercase,
    string_from_chars, trim_bounds, trim_spec,
};

verus! {

/// A collection of scripture.
#[derive(Clone, Copy, Debug, PartialEq, Eq, PartialOrd, Ord, Hash, Structural)]
pub enum Canon {
    BookOfMormon,
    DoctrineAndCovenants,
    PearlOfGreatPrice,
    OldTestament,
    NewTestament,
}

/// The canons in the order in which they are offered and grouped.
pub open spec fn canon_order() -> Seq<Canon> {
    seq![
        Canon::OldTestament,
        Canon::NewTestament,
        Canon::BookOfMormon,
        Canon::DoctrineAndCovenants,
        Canon::PearlOfGreatPrice,
    ]
}

pub open spec fn canon_label(canon: Canon) -> Seq<char> {
    match canon {
        Canon::BookOfMormon => "Book of Mormon"@,
        Canon::DoctrineAndCovenants => "Doctrine and Covenants"@,
        Canon::PearlOfGreatPrice => "Pearl of Great Price"@,
        Canon::OldTestament => "Old Testament"@,
        Canon::NewTestament => "New Testament"@,
    }
}

impl Canon {
    pub const ALL: [Canon; 5] = [
        Canon::OldTestament,
        Canon::NewTestament,
        Canon::BookOfMormon,
        Canon::DoctrineAndCovenants,
        Canon::PearlOfGreatPrice,
    ];

    /// The canons in display order.
    pub fn all() -> (r: [Canon; 5])
        ensures
            r@ == canon_order(),
    {
        let r = [
            Canon::OldTestament,
            Canon::NewTestament,
            Canon::BookOfMormon,
            Canon::DoctrineAndCovenants,
            Canon::PearlOfGreatPrice,
        ];
        assert(r@ =~= canon_order());
        r
    }

    pub fn label(self) -> (r: &'static str)
        ensures
            r@ == canon_label(self),
    {
        match self {
            Canon::BookOfMormon => "Book of Mormon",
            Canon::DoctrineAndCovenants => "Doctrine and Covenants",
            Canon::PearlOfGreatPrice => "Pearl of Great Price",
            Canon::OldTestament => "Old Testament",
            Canon::NewTestament => "New Testament",
        }
    }
}

/// A preset selection of canons.
#[derive(Clone, Copy, Debug, PartialEq, Eq, Structural)]
pub enum GameMode {
    BookOfMormon,
    Bible,
    Restoration,
    AllStandardWorks,
}

pub open spec fn game_mode_order() -> Seq<GameMode> {
    seq![GameMode::BookOfMormon, GameMode::Bible, GameMode::Restoration, GameMode::AllStandardWorks]
}

pub open spec fn game_mode_label(mode: GameMode) -> Seq<char> {
    match mode {
        GameMode::BookOfMormon => "Book of Mormon"@,
        GameMode::Bible => "Bible"@,
        GameMode::Restoration => "Restoration"@,
        GameMode::AllStandardWorks => "All Standard Works"@,
    }
}

pub open spec fn game_mode_canons(mode: GameMode) -> Seq<Canon> {
    match mode {
        GameMode::BookOfMormon => seq![Canon::BookOfMormon],
        GameMode::Bible => seq![Canon::OldTestament, Canon::NewTestament],
        GameMode::Restoration => seq![
            Canon::BookOfMormon,
            Canon::DoctrineAndCovenants,
            Canon::PearlOfGreatPrice,
        ],
        GameMode::AllStandardWorks => canon_order(),
    }
}

/// The scope a preset stands for: each of its canons, every book included.
pub open spec fn game_mode_scope(mode: GameMode) -> Seq<(Canon, BookSelection)> {
    game_mode_canons(mode).map_values(|canon: Canon| (canon, BookSelection::All))
}

impl GameMode {
    pub const ALL: [GameMode; 4] = [
        GameMode::BookOfMormon,
        GameMode::Bible,
        GameMode::Restoration,
        GameMode::AllStandardWorks,
    ];

    /// The presets in display order.
    pub fn all() -> (r: [GameMode; 4])
        ensures
            r@ == game_mode_order(),
    {
        let r = [
            GameMode::BookOfMormon,
            GameMode::Bible,
            GameMode::Restoration,
            GameMode::AllStandardWorks,
        ];
        assert(r@ =~= game_mode_order());
        r
    }

    pub fn label(self) -> (r: &'static str)
        ensures
            r@ == game_mode_label(self),
    {
        match self {
            GameMode::BookOfMormon => "Book of Mormon",
            GameMode::Bible => "Bible",
            GameMode::Restoration => "Restoration",
            GameMode::AllStandardWorks => "All Standard Works",
        }
    }

    pub fn canons(self) -> (r: Vec<Canon>)
        ensures
            r@ == game_mode_canons(self),
    {
        let r = match self {
            GameMode::BookOfMormon => vec![Canon::BookOfMormon],
            GameMode::Bible => vec![Canon::OldTestament, Canon::NewTestament],
            GameMode::Restoration => vec![
                Canon::BookOfMormon,
                Canon::DoctrineAndCovenants,
                Canon::PearlOfGreatPrice,
            ],
            GameMode::AllStandardWorks => vec![
                Canon::OldTestament,
                Canon::NewTestament,
                Canon::BookOfMormon,
                Canon::DoctrineAndCovenants,
                Canon::PearlOfGreatPrice,
            ],
        };
        assert(r@ =~= game_mode_canons(self));
        r
    }

    pub fn scope(self) -> (r: GameScope)
        ensures
            r@ == game_mode_scope(self),
    {
        let canons = self.canons();
        let mut scopes: Vec<CanonScope> = Vec::new();
        let mut i: usize = 0;
        while i < canons.len()
            invariant
                i <= canons.len(),
                canons@ == game_mode_canons(self),
                scopes@.len() == i,
                forall|j: int| 0 <= j < i ==> (#[trigger] scopes@[j])@ == (canons@[j], BookSelection::All),
            decreases canons.len() - i,
        {
            scopes.push(CanonScope { canon: canons[i], books: BookScope::All });
            i = i + 1;
        }
        let r = GameScope { canons: scopes };
        assert(r@ =~= game_mode_scope(self));
        r
    }
}

/// The view of a list of strings: their characters.
pub open spec fn strings_view(v: Seq<String>) -> Seq<Seq<char>> {
    v.map_values(|s: String| s@)
}

/// Which books of a canon a scope includes.
pub enum BookSelection {
    All,
    Selected(Seq<Seq<char>>),
}

impl BookSelection {
    pub open spec fn includes(self, book: Seq<char>) -> bool {
        match self {
            BookSelection::All => true,
            BookSelection::Selected(books) => books.contains(book),
        }
    }
}

#[derive(Clone, Debug, PartialEq, Eq)]
pub enum BookScope {
    All,
    Selected(Vec<String>),
}

impl View for BookScope {
    type V = BookSelection;

    open spec fn view(&self) -> BookSelection {
        match self {
            BookScope::All => BookSelection::All,
            BookScope::Selected(books) => BookSelection::Selected(strings_view(books@)),
        }
    }
}

/// Whether `book` is one of `books`.
pub fn strings_contain(books: &Vec<String>, book: &str) -> (r: bool)
    ensures
        r == strings_view(books@).contains(book@),
{
    let mut i: usize = 0;
    while i < books.len()
        invariant
            i <= books.len(),
            forall|j: int| 0 <= j < i ==> books@[j]@ != book@,
        decreases books.len() - i,
    {
        if str_equal(books[i].as_str(), book) {
            assert(strings_view(books@)[i as int] == book@);
            return true;
        }
        i = i + 1;
    }
    assert(!strings_view(books@).contains(book@)) by {
        if strings_view(books@).contains(book@) {
            let k = choose|k: int| 0 <= k < strings_view(books@).len() && strings_view(books@)[k] == book@;
            assert(books@[k]@ == book@);
        }
    }
    false
}

/// Whether two lists of strings hold the same strings in the same order.
pub fn strings_equal(a: &Vec<String>, b: &Vec<String>) -> (r: bool)
    ensures
        r == (strings_view(a@) == strings_view(b@)),
{
    if a.len() != b.len() {
        assert(strings_view(a@).len() != strings_view(b@).len());
        return false;
    }
    let mut i: usize = 0;
    while i < a.len()
        invariant
            i <= a.len() == b.len(),
            forall|j: int| 0 <= j < i ==> a@[j]@ == b@[j]@,
        decreases a.len() - i,
    {
        if !str_equal(a[i].as_str(), b[i].as_str()) {
            assert(strings_view(a@)[i as int] != strings_view(b@)[i as int]);
            return false;
        }
        i = i + 1;
    }
    assert(strings_view(a@) =~= strings_view(b@));
    true
}

/// A copy of a list of strings.
pub fn copy_strings(v: &Vec<String>) -> (r: Vec<String>)
    ensures
        strings_view(r@) == strings_view(v@),
        r@ == v@,
{
    let mut r: Vec<String> = Vec::new();
    let mut i: usize = 0;
    while i < v.len()
        invariant
            i <= v.len(),
            r@ == v@.take(i as int),
        decreases v.len() - i,
    {
        r.push(v[i].clone());
        assert(r@ =~= v@.take(i + 1));
        i = i + 1;
    }
    assert(r@ =~= v@);
    r
}

impl BookScope {
    pub fn includes(&self, book: &str) -> (r: bool)
        ensures
            r == self@.includes(book@),
    {
        match self {
            BookScope::All => true,
            BookScope::Selected(books) => strings_contain(books, book),
        }
    }

    /// A copy of this selection.
    pub fn copy(&self) -> (r: BookScope)
        ensures
            r@ == self@,
    {
        match self {
            BookScope::All => BookScope::All,
            BookScope::Selected(books) => BookScope::Selected(copy_strings(books)),
        }
    }

    /// Whether two selections are the same.
    pub fn same_as(&self, other: &BookScope) -> (r: bool)
        ensures
            r == (self@ == other@),
    {
        match (self, other) {
            (BookScope::All, BookScope::All) => true,
            (BookScope::Selected(a), BookScope::Selected(b)) => strings_equal(a, b),
            _ => false,
        }
    }

    pub fn is_all(&self) -> (r: bool)
        ensures
            r == (self@ == BookSelection::All),
    {
        match self {
            BookScope::All => true,
            BookScope::Selected(_) => false,
        }
    }
}

#[derive(Clone, Debug, PartialEq, Eq)]
pub struct CanonScope {
    pub canon: Canon,
    pub books: BookScope,
}

impl View for CanonScope {
    type V = (Canon, BookSelection);

    open spec fn view(&self) -> (Canon, BookSelection) {
        (self.canon, self.books@)
    }
}

impl CanonScope {
    pub fn copy(&self) -> (r: CanonScope)
        ensures
            r@ == self@,
    {
        CanonScope { canon: self.canon, books: self.books.copy() }
    }
}

/// The canons a game draws from and accepts guesses in, each with its selected books.
#[derive(Clone, Debug, PartialEq, Eq)]
pub struct GameScope {
    pub canons: Vec<CanonScope>,
}

impl View for GameScope {
    type V = Seq<(Canon, BookSelection)>;

    open spec fn view(&self) -> Seq<(Canon, BookSelection)> {
        self.canons@.map_values(|c: CanonScope| c@)
    }
}

/// The position of the first entry for `canon` in a scope, or -1.
pub open spec fn scope_position(scope: Seq<(Canon, BookSelection)>, canon: Canon) -> int
    decreases scope.len(),
{
    if scope.len() == 0 {
        -1
    } else if scope[0].0 == canon {
        0
    } else {
        let rest = scope_position(scope.drop_first(), canon);
        if rest == -1 { -1 } else { rest + 1 }
    }
}

/// The selection of books a scope makes in `canon`, if the scope includes that canon.
pub open spec fn scope_selection(scope: Seq<(Canon, BookSelection)>, canon: Canon) -> Option<BookSelection> {
    let p = scope_position(scope, canon);
    if p == -1 { None } else { Some(scope[p].1) }
}

/// Whether a scope lets a guess or a passage name `book` in `canon`.
pub open spec fn scope_includes_book(scope: Seq<(Canon, BookSelection)>, canon: Canon, book: Seq<char>) -> bool {
    match scope_selection(scope, canon) {
        Some(selection) => selection.includes(book),
        None => false,
    }
}

pub proof fn lemma_scope_position(scope: Seq<(Canon, BookSelection)>, canon: Canon)
    ensures
        -1 <= scope_position(scope, canon) < scope.len(),
        scope_position(scope, canon) == -1 <==> forall|j: int| 0 <= j < scope.len() ==> scope[j].0 != canon,
        scope_position(scope, canon) != -1 ==> {
            &&& scope[scope_position(scope, canon)].0 == canon
            &&& forall|j: int| 0 <= j < scope_position(scope, canon) ==> scope[j].0 != canon
        },
    decreases scope.len(),
{
    if scope.len() > 0 {
        lemma_scope_position(scope.drop_first(), canon);
        if scope[0].0 != canon {
            assert forall|j: int| 1 <= j < scope.len() implies scope[j].0 == scope.drop_first()[j - 1].0 by {}
        }
    }
}

impl GameScope {
    pub fn canons(&self) -> (r: Vec<Canon>)
        ensures
            r@ == self@.map_values(|c: (Canon, BookSelection)| c.0),
    {
        let mut r: Vec<Canon> = Vec::new();
        let mut i: usize = 0;
        while i < self.canons.len()
            invariant
                i <= self.canons.len(),
                r@.len() == i,
                forall|j: int| 0 <= j < i ==> r@[j] == self.canons@[j].canon,
            decreases self.canons.len() - i,
        {
            r.push(self.canons[i].canon);
            i = i + 1;
        }
        assert(r@ =~= self@.map_values(|c: (Canon, BookSelection)| c.0));
        r
    }

    /// Where the entry for `canon` stands, if the scope includes that canon.
    pub fn position_of(&self, canon: Canon) -> (r: Option<usize>)
        ensures
            match r {
                Some(i) => i as int == scope_position(self@, canon),
                None => scope_position(self@, canon) == -1,
            },
    {
        proof {
            lemma_scope_position(self@, canon);
        }
        let mut i: usize = 0;
        while i < self.canons.len()
            invariant
                i <= self.canons.len(),
                forall|j: int| 0 <= j < i ==> self@[j].0 != canon,
                -1 <= scope_position(self@, canon) < self@.len(),
                scope_position(self@, canon) == -1 <==> forall|j: int| 0 <= j < self@.len() ==> self@[j].0 != canon,
                scope_position(self@, canon) != -1 ==> {
                    &&& self@[scope_position(self@, canon)].0 == canon
                    &&& forall|j: int| 0 <= j < scope_position(self@, canon) ==> self@[j].0 != canon
                },
            decreases self.canons.len() - i,
        {
            assert(self@[i as int].0 == self.canons@[i as int].canon);
            if self.canons[i].canon == canon {
                return Some(i);
            }
            i = i + 1;
        }
        None
    }

    pub fn contains_canon(&self, canon: Canon) -> (r: bool)
        ensures
            r == (scope_position(self@, canon) != -1),
    {
        self.position_of(canon).is_some()
    }

    pub fn canon_scope(&self, canon: Canon) -> (r: Option<&CanonScope>)
        ensures
            match r {
                Some(c) => c.canon == canon && Some(c.books@) == scope_selection(self@, canon),
                None => scope_selection(self@, canon) is None,
            },
    {
        proof {
            lemma_scope_position(self@, canon);
        }
        match self.position_of(canon) {
            Some(i) => Some(&self.canons[i]),
            None => None,
        }
    }

    pub fn selected_book_names(&self, canon: Canon) -> (r: Option<Vec<String>>)
        ensures
            match r {
                Some(books) => scope_selection(self@, canon) == Some(BookSelection::Selected(strings_view(books@))),
                None => scope_selection(self@, canon) is None || scope_selection(self@, canon) == Some(BookSelection::All),
            },
    {
        let canon_scope = match self.canon_scope(canon) {
            Some(c) => c,
            None => return None,
        };
        match &canon_scope.books {
            BookScope::All => None,
            BookScope::Selected(books) => Some(copy_strings(books)),
        }
    }

    pub fn includes_book(&self, canon: Canon, book: &str) -> (r: bool)
        ensures
            r == scope_includes_book(self@, canon, book@),
    {
        match self.canon_scope(canon) {
            Some(scope) => scope.books.includes(book),
            None => false,
        }
    }

    /// A copy of this scope.
    pub fn copy(&self) -> (r: GameScope)
        ensures
            r@ == self@,
    {
        let mut canons: Vec<CanonScope> = Vec::new();
        let mut i: usize = 0;
        while i < self.canons.len()
            invariant
                i <= self.canons.len(),
                canons@.len() == i,
                forall|j: int| 0 <= j < i ==> (#[trigger] canons@[j])@ == self.canons@[j]@,
            decreases self.canons.len() - i,
        {
            canons.push(self.canons[i].copy());
            i = i + 1;
        }
        let r = GameScope { canons };
        assert(r@ =~= self@);
        r
    }

    /// Whether two scopes are the same.
    pub fn same_as(&self, other: &GameScope) -> (r: bool)
        ensures
            r == (self@ == other@),
    {
        if self.canons.len() != other.canons.len() {
            assert(self@.len() != other@.len());
            return false;
        }
        let mut i: usize = 0;
        while i < self.canons.len()
            invariant
                i <= self.canons.len() == other.canons.len(),
                forall|j: int| 0 <= j < i ==> self@[j] == other@[j],
            decreases self.canons.len() - i,
        {
            if self.canons[i].canon != other.canons[i].canon
                || !self.canons[i].books.same_as(&other.canons[i].books) {
                assert(self@[i as int] != other@[i as int]);
                return false;
            }
            i = i + 1;
        }
        assert(self@ =~= other@);
        true
    }
}

impl Default for GameScope {
    /// The scope of the Book of Mormon preset.
    fn default() -> (r: GameScope)
        ensures
            r@ == game_mode_scope(GameMode::BookOfMormon),
    {
        GameMode::BookOfMormon.scope()
    }
}

} // verus!

verus! {

/// One step of splitting on whitespace: finished words, and the word being read.
pub open spec fn split_step(st: (Seq<Seq<char>>, Seq<char>), c: char) -> (Seq<Seq<char>>, Seq<char>) {
    if is_whitespace_char(c) {
        if st.1.len() > 0 {
            (st.0.push(st.1), Seq::empty())
        } else {
            st
        }
    } else {
        (st.0, st.1.push(c))
    }
}

pub open spec fn split_state(s: Seq<char>) -> (Seq<Seq<char>>, Seq<char>)
    decreases s.len(),
{
    if s.len() == 0 {
        (Seq::empty(), Seq::empty())
    } else {
        split_step(split_state(s.drop_last()), s.last())
    }
}

/// The maximal runs of non-whitespace characters of `s`, in order (as `str::split_whitespace`).
pub open spec fn split_whitespace_spec(s: Seq<char>) -> Seq<Seq<char>> {
    let st = split_state(s);
    if st.1.len() > 0 {
        st.0.push(st.1)
    } else {
        st.0
    }
}

/// The characters a word keeps once punctuation is stripped.
pub open spec fn keep_word_char(c: char) -> bool {
    is_alphanumeric_char(c) || c == '\''
}

/// A word with punctuation stripped, lowercased.
pub open spec fn normalize_word(w: Seq<char>) -> Seq<char> {
    lowercase(w.filter(|c: char| keep_word_char(c)))
}

/// The normalized words of a text, empty ones left out.
pub open spec fn normalized_words_spec(text: Seq<char>) -> Seq<Seq<char>> {
    split_whitespace_spec(text).map_values(|w: Seq<char>| normalize_word(w)).filter(
        |w: Seq<char>| w.len() > 0,
    )
}

pub open spec fn chars_view(v: Seq<Vec<char>>) -> Seq<Seq<char>> {
    v.map_values(|w: Vec<char>| w@)
}

fn split_whitespace_chars(chars: &Vec<char>) -> (words: Vec<Vec<char>>)
    ensures
        chars_view(words@) == split_whitespace_spec(chars@),
{
    let mut words: Vec<Vec<char>> = Vec::new();
    let mut cur: Vec<char> = Vec::new();
    let mut i: usize = 0;
    while i < chars.len()
        invariant
            i <= chars.len(),
            (chars_view(words@), cur@) == split_state(chars@.take(i as int)),
        decreases chars.len() - i,
    {
        let c = chars[i];
        proof {
            assert(chars@.take(i + 1).drop_last() =~= chars@.take(i as int));
            assert(chars@.take(i + 1).last() == c);
        }
        if char_is_whitespace(c) {
            if cur.len() > 0 {
                let ghost before = chars_view(words@);
                let ghost w = cur@;
                let finished = cur;
                words.push(finished);
                cur = Vec::new();
                assert(chars_view(words@) =~= before.push(w));
            }
        } else {
            cur.push(c);
        }
        i = i + 1;
    }
    assert(chars@.take(chars.len() as int) =~= chars@);
    if cur.len() > 0 {
        let ghost before = chars_view(words@);
        let ghost w = cur@;
        words.push(cur);
        assert(chars_view(words@) =~= before.push(w));
    }
    words
}

/// The words of `text` with punctuation stripped and lowercased, empty ones left out.
pub fn normalized_words(text: &str) -> (r: Vec<String>)
    ensures
        strings_view(r@) == normalized_words_spec(text@),
{
    let chars = chars_of(text);
    let words = split_whitespace_chars(&chars);
    let ghost split = split_whitespace_spec(text@);
    let ghost normalize = |w: Seq<char>| normalize_word(w);
    let ghost nonempty = |w: Seq<char>| w.len() > 0;
    let mut r: Vec<String> = Vec::new();
    let mut k: usize = 0;
    while k < words.len()
        invariant
            k <= words.len(),
            chars_view(words@) == split,
            normalize == (|w: Seq<char>| normalize_word(w)),
            nonempty == (|w: Seq<char>| w.len() > 0),
            strings_view(r@) == split.take(k as int).map_values(normalize).filter(nonempty),
        decreases words.len() - k,
    {
        let word = &words[k];
        let mut kept = String::new();
        let mut j: usize = 0;
        let ghost keep = |c: char| keep_word_char(c);
        while j < word.len()
            invariant
                j <= word.len(),
                keep == (|c: char| keep_word_char(c)),
                kept@ == word@.take(j as int).filter(keep),
            decreases word.len() - j,
        {
            let c = word[j];
            proof {
                assert(word@.take(j + 1) =~= word@.take(j as int).push(c));
                word@.take(j as int).lemma_filter_push(c, keep);
            }
            if char_is_alphanumeric(c) || c == '\'' {
                push_char(&mut kept, c);
            }
            j = j + 1;
        }
        assert(word@.take(word.len() as int) =~= word@);
        let lower = str_to_lowercase(kept.as_str());
        proof {
            assert(split[k as int] == word@);
            assert(lower@ == normalize(split[k as int]));
            assert(split.take(k + 1) =~= split.take(k as int).push(split[k as int]));
            assert(split.take(k + 1).map_values(normalize) =~= split.take(k as int).map_values(normalize).push(normalize(split[k as int])));
            split.take(k as int).map_values(normalize).lemma_filter_push(normalize(split[k as int]), nonempty);
        }
        if !lower.as_str().is_empty() {
            assert(lower@.len() > 0);
            let ghost before = strings_view(r@);
            r.push(lower);
            assert(strings_view(r@) =~= before.push(lower@));
        } else {
            assert(lower@.len() == 0);
        }
        k = k + 1;
    }
    assert(split.take(words.len() as int) =~= split);
    r
}

} // verus!

verus! {

/// How selective the pool of playable verses is.
#[derive(Clone, Copy, Debug, PartialEq, Eq, PartialOrd, Ord, Hash, Structural)]
pub enum Difficulty {
    Easy,
    Normal,
    Hard,
}

pub open spec fn difficulty_order() -> Seq<Difficulty> {
    seq![Difficulty::Easy, Difficulty::Normal, Difficulty::Hard]
}

pub open spec fn difficulty_label(d: Difficulty) -> Seq<char> {
    match d {
        Difficulty::Easy => "Easy"@,
        Difficulty::Normal => "Normal"@,
        Difficulty::Hard => "Hard"@,
    }
}

impl Difficulty {
    pub const ALL: [Difficulty; 3] = [Difficulty::Easy, Difficulty::Normal, Difficulty::Hard];

    pub fn label(self) -> (r: &'static str)
        ensures
            r@ == difficulty_label(self),
    {
        match self {
            Difficulty::Easy => "Easy",
            Difficulty::Normal => "Normal",
            Difficulty::Hard => "Hard",
        }
    }
}

/// The fewest words a playable verse has.
pub open spec fn min_words(d: Difficulty) -> nat {
    match d {
        Difficulty::Easy => 24,
        Difficulty::Normal => 16,
        Difficulty::Hard => 8,
    }
}

/// The fewest distinct words a playable verse has.
pub open spec fn min_distinct_words(d: Difficulty) -> nat {
    match d {
        Difficulty::Easy => 16,
        Difficulty::Normal => 10,
        Difficulty::Hard => 6,
    }
}

/// The most filler phrases a verse may hold before its vocabulary must be varied.
pub open spec fn max_filler_hits(d: Difficulty) -> nat {
    match d {
        Difficulty::Easy => 1,
        Difficulty::Normal => 2,
        Difficulty::Hard => 2,
    }
}

/// Whether distinct words make up a large enough share of all words:
/// 4/5 on easy, 18/25 on normal, 31/50 on hard.
pub open spec fn varied_enough(d: Difficulty, distinct: nat, words: nat) -> bool {
    match d {
        Difficulty::Easy => distinct * 5 >= words * 4,
        Difficulty::Normal => distinct * 25 >= words * 18,
        Difficulty::Hard => distinct * 50 >= words * 31,
    }
}

/// Stock phrases that make a verse hard to place.
pub open spec fn filler_phrases() -> Seq<Seq<char>> {
    seq!["and it came to pass"@, "now behold"@, "and now"@, "yea"@, "therefore"@]
}

/// How many of `phrases` occur in `text`.
pub open spec fn phrases_found(text: Seq<char>, phrases: Seq<Seq<char>>) -> nat
    decreases phrases.len(),
{
    if phrases.len() == 0 {
        0
    } else {
        phrases_found(text, phrases.drop_last()) + if contains_seq(text, phrases.last()) { 1nat } else { 0nat }
    }
}

/// Whether a verse is distinctive enough to be a round at this difficulty.
pub open spec fn playable_spec(text: Seq<char>, d: Difficulty) -> bool {
    let words = normalized_words_spec(text);
    let distinct = words.to_set().len();
    &&& words.len() >= min_words(d)
    &&& distinct >= min_distinct_words(d)
    &&& (phrases_found(lowercase(text), filler_phrases()) <= max_filler_hits(d)
        || varied_enough(d, distinct, words.len()))
}

/// The number of distinct strings in a list.
fn distinct_count(words: &Vec<String>) -> (n: usize)
    ensures
        n == strings_view(words@).to_set().len(),
{
    let mut distinct: Vec<String> = Vec::new();
    let mut i: usize = 0;
    while i < words.len()
        invariant
            i <= words.len(),
            distinct@.len() <= i,
            strings_view(distinct@).no_duplicates(),
            strings_view(distinct@).to_set() == strings_view(words@).take(i as int).to_set(),
        decreases words.len() - i,
    {
        let ghost before = strings_view(distinct@);
        proof {
            assert(strings_view(words@).take(i + 1) =~= strings_view(words@).take(i as int).push(words@[i as int]@));
            strings_view(words@).take(i as int).lemma_push_to_set_commute(words@[i as int]@);
        }
        if !strings_contain(&distinct, words[i].as_str()) {
            distinct.push(words[i].clone());
            proof {
                assert(strings_view(distinct@) =~= before.push(words@[i as int]@));
                before.lemma_push_to_set_commute(words@[i as int]@);
                assert forall|a: int, b: int| 0 <= a < b < strings_view(distinct@).len()
                    implies strings_view(distinct@)[a] != strings_view(distinct@)[b] by {
                    if b == before.len() {
                        assert(before.contains(before[a]));
                    }
                }
            }
        } else {
            assert(before.to_set().insert(words@[i as int]@) =~= before.to_set());
        }
        i = i + 1;
    }
    assert(strings_view(words@).take(words.len() as int) =~= strings_view(words@));
    proof {
        strings_view(distinct@).unique_seq_to_set();
    }
    distinct.len()
}

fn filler_phrase_list() -> (r: Vec<Vec<char>>)
    ensures
        chars_view(r@) == filler_phrases(),
{
    let mut r: Vec<Vec<char>> = Vec::new();
    r.push(chars_of("and it came to pass"));
    r.push(chars_of("now behold"));
    r.push(chars_of("and now"));
    r.push(chars_of("yea"));
    r.push(chars_of("therefore"));
    assert(chars_view(r@) =~= filler_phrases());
    r
}

/// How many filler phrases occur in `text`.
fn filler_hits(text: &Vec<char>) -> (n: usize)
    ensures
        n == phrases_found(text@, filler_phrases()),
{
    let phrases = filler_phrase_list();
    let mut n: usize = 0;
    let mut i: usize = 0;
    while i < phrases.len()
        invariant
            i <= phrases.len(),
            chars_view(phrases@) == filler_phrases(),
            n == phrases_found(text@, filler_phrases().take(i as int)),
            n <= i,
        decreases phrases.len() - i,
    {
        assert(filler_phrases().take(i + 1).drop_last() =~= filler_phrases().take(i as int));
        assert(filler_phrases().take(i + 1).last() == phrases@[i as int]@);
        if chars_contain(text, &phrases[i]) {
            n = n + 1;
        }
        i = i + 1;
    }
    assert(filler_phrases().take(phrases.len() as int) =~= filler_phrases());
    n
}

/// Whether a verse is distinctive enough to be a round at this difficulty: long enough,
/// with enough distinct words, and not dominated by stock phrases.
pub fn is_playable_verse(text: &str, difficulty: Difficulty) -> (r: bool)
    ensures
        r == playable_spec(text@, difficulty),
{
    let words = normalized_words(text);
    let word_count = words.len();
    let minimum_words: usize = match difficulty {
        Difficulty::Easy => 24,
        Difficulty::Normal => 16,
        Difficulty::Hard => 8,
    };
    if word_count < minimum_words {
        return false;
    }
    let distinct_words = distinct_count(&words);
    let minimum_distinct_words: usize = match difficulty {
        Difficulty::Easy => 16,
        Difficulty::Normal => 10,
        Difficulty::Hard => 6,
    };
    if distinct_words < minimum_distinct_words {
        return false;
    }
    let lower = str_to_lowercase(text);
    let lower_chars = chars_of(lower.as_str());
    let hits = filler_hits(&lower_chars);
    let distinct = distinct_words as u128;
    let total = word_count as u128;
    match difficulty {
        Difficulty::Easy => hits <= 1 || distinct * 5 >= total * 4,
        Difficulty::Normal => hits <= 2 || distinct * 25 >= total * 18,
        Difficulty::Hard => hits <= 2 || distinct * 50 >= total * 31,
    }
}

} // verus!

verus! {

/// A verse position: canon, book name, chapter and verse.
pub struct RefView {
    pub canon: Canon,
    pub book: Seq<char>,
    pub chapter: u16,
    pub verse: u16,
}

#[derive(Clone, Debug, PartialEq)]
pub struct Reference {
    pub canon: Canon,
    pub book: String,
    pub chapter: u16,
    pub verse: u16,
}

impl View for Reference {
    type V = RefView;

    open spec fn view(&self) -> RefView {
        RefView { canon: self.canon, book: self.book@, chapter: self.chapter, verse: self.verse }
    }
}

impl Reference {
    pub fn copy(&self) -> (r: Reference)
        ensures
            r@ == self@,
    {
        Reference { canon: self.canon, book: self.book.clone(), chapter: self.chapter, verse: self.verse }
    }
}

#[derive(Clone, Debug, PartialEq)]
pub struct Verse {
    pub reference: Reference,
    pub text: String,
}

impl View for Verse {
    type V = (RefView, Seq<char>);

    open spec fn view(&self) -> (RefView, Seq<char>) {
        (self.reference@, self.text@)
    }
}

impl Verse {
    pub fn copy(&self) -> (r: Verse)
        ensures
            r@ == self@,
    {
        Verse { reference: self.reference.copy(), text: self.text.clone() }
    }
}

pub open spec fn verses_view(v: Seq<Verse>) -> Seq<(RefView, Seq<char>)> {
    v.map_values(|x: Verse| x@)
}

/// A book and the chapters it has, in order.
#[derive(Clone, Debug, PartialEq)]
pub struct BookInfo {
    pub name: String,
    pub chapters: Vec<u16>,
}

impl View for BookInfo {
    type V = (Seq<char>, Seq<u16>);

    open spec fn view(&self) -> (Seq<char>, Seq<u16>) {
        (self.name@, self.chapters@)
    }
}

pub fn copy_u16s(v: &Vec<u16>) -> (r: Vec<u16>)
    ensures
        r@ == v@,
{
    let mut r: Vec<u16> = Vec::new();
    let mut i: usize = 0;
    while i < v.len()
        invariant
            i <= v.len(),
            r@ == v@.take(i as int),
        decreases v.len() - i,
    {
        r.push(v[i]);
        assert(r@ =~= v@.take(i + 1));
        i = i + 1;
    }
    assert(r@ =~= v@);
    r
}

impl BookInfo {
    pub fn copy(&self) -> (r: BookInfo)
        ensures
            r@ == self@,
    {
        BookInfo { name: self.name.clone(), chapters: copy_u16s(&self.chapters) }
    }
}

pub open spec fn books_view(v: Seq<BookInfo>) -> Seq<(Seq<char>, Seq<u16>)> {
    v.map_values(|b: BookInfo| b@)
}

/// A copy of a list of books.
pub fn copy_books(v: &Vec<BookInfo>) -> (r: Vec<BookInfo>)
    ensures
        books_view(r@) == books_view(v@),
{
    let mut r: Vec<BookInfo> = Vec::new();
    let mut i: usize = 0;
    while i < v.len()
        invariant
            i <= v.len(),
            books_view(r@) == books_view(v@).take(i as int),
        decreases v.len() - i,
    {
        let ghost before = books_view(r@);
        let b = v[i].copy();
        r.push(b);
        assert(books_view(r@) =~= before.push(v@[i as int]@));
        assert(books_view(v@).take(i + 1) =~= books_view(v@).take(i as int).push(v@[i as int]@));
        i = i + 1;
    }
    assert(books_view(v@).take(v.len() as int) =~= books_view(v@));
    r
}

/// A chapter of a book, in reading order.
#[derive(Clone, Debug, PartialEq)]
pub struct ChapterRef {
    pub book: String,
    pub chapter: u16,
}

/// One entry of the flat scripture data: a reference such as `1 Nephi 3:7` and its text.
#[derive(Clone, Debug, PartialEq)]
pub struct FlatVerse {
    pub reference: String,
    pub text: String,
}

/// The reference a flat entry names, if it reads as `<book> <chapter>:<verse>`: the verse
/// number follows the last colon, the chapter follows the last space before it.
pub open spec fn parse_reference_spec(canon: Canon, s: Seq<char>) -> Option<RefView> {
    let colon = last_index_of(s, ':');
    if colon == -1 {
        None
    } else {
        let book_and_chapter = s.subrange(0, colon);
        let verse_text = s.subrange(colon + 1, s.len() as int);
        let space = last_index_of(book_and_chapter, ' ');
        if space == -1 {
            None
        } else {
            let book = book_and_chapter.subrange(0, space);
            let chapter_text = trim_spec(book_and_chapter.subrange(space, book_and_chapter.len() as int));
            match (parse_u16_spec(chapter_text), parse_u16_spec(verse_text)) {
                (Some(chapter), Some(verse)) => Some(RefView { canon, book, chapter, verse }),
                _ => None,
            }
        }
    }
}

proof fn lemma_last_index_bound(s: Seq<char>, c: char)
    ensures
        -1 <= last_index_of(s, c) < s.len(),
    decreases s.len(),
{
    if s.len() > 0 && s.last() != c {
        lemma_last_index_bound(s.drop_last(), c);
    }
}

pub fn parse_reference(canon: Canon, reference: &str) -> (r: Option<Reference>)
    ensures
        match r {
            Some(parsed) => parse_reference_spec(canon, reference@) == Some(parsed@),
            None => parse_reference_spec(canon, reference@) is None,
        },
{
    let chars = chars_of(reference);
    let ghost s = reference@;
    assert(chars@.subrange(0, chars@.len() as int) =~= s);
    let colon = match rfind_char(&chars, chars.len(), ':') {
        Some(i) => i,
        None => return None,
    };
    proof {
        lemma_last_index_bound(s, ':');
    }
    let ghost book_and_chapter = s.subrange(0, colon as int);
    let space = match rfind_char(&chars, colon, ' ') {
        Some(i) => i,
        None => return None,
    };
    proof {
        lemma_last_index_bound(book_and_chapter, ' ');
        assert(book_and_chapter.subrange(space as int, book_and_chapter.len() as int) =~= chars@.subrange(space as int, colon as int));
        assert(s.subrange(colon + 1, s.len() as int) =~= chars@.subrange(colon + 1, chars.len() as int));
        assert(book_and_chapter.subrange(0, space as int) =~= chars@.subrange(0, space as int));
    }
    let (chapter_start, chapter_end) = trim_bounds(&chars, space, colon);
    let chapter = match parse_u16(&chars, chapter_start, chapter_end) {
        Some(c) => c,
        None => return None,
    };
    let verse = match parse_u16(&chars, colon + 1, chars.len()) {
        Some(v) => v,
        None => return None,
    };
    let book = string_from_chars(&chars, 0, space);
    Some(Reference { canon, book, chapter, verse })
}

/// The verses of flat data whose references parse, in order.
pub open spec fn parsed_verses(canon: Canon, flat: Seq<(Seq<char>, Seq<char>)>) -> Seq<(RefView, Seq<char>)>
    decreases flat.len(),
{
    if flat.len() == 0 {
        Seq::empty()
    } else {
        let before = parsed_verses(canon, flat.drop_last());
        match parse_reference_spec(canon, flat.last().0) {
            Some(r) => before.push((r, flat.last().1)),
            None => before,
        }
    }
}

/// Adds a verse's position to the book list and the chapter order built so far: a new book
/// starts whenever the book name changes, a new chapter whenever the chapter number changes.
pub open spec fn index_step(
    st: (Seq<(Seq<char>, Seq<u16>)>, Seq<(Seq<char>, u16)>),
    r: RefView,
) -> (Seq<(Seq<char>, Seq<u16>)>, Seq<(Seq<char>, u16)>) {
    let books = if st.0.len() == 0 || st.0.last().0 != r.book {
        st.0.push((r.book, Seq::<u16>::empty()))
    } else {
        st.0
    };
    let last = books.last();
    if last.1.len() == 0 || last.1.last() != r.chapter {
        (books.update(books.len() - 1, (last.0, last.1.push(r.chapter))), st.1.push((r.book, r.chapter)))
    } else {
        (books, st.1)
    }
}

/// The books with their chapters, and the chapters in reading order, of a run of verses.
pub open spec fn index_state(verses: Seq<(RefView, Seq<char>)>) -> (Seq<(Seq<char>, Seq<u16>)>, Seq<(Seq<char>, u16)>)
    decreases verses.len(),
{
    if verses.len() == 0 {
        (Seq::empty(), Seq::empty())
    } else {
        index_step(index_state(verses.drop_last()), verses.last().0)
    }
}

/// The chapters of a run of verses are all in its reading order, and the order ends with
/// the last chapter of the last book.
pub proof fn lemma_index_state(verses: Seq<(RefView, Seq<char>)>)
    ensures
        ({
            let st = index_state(verses);
            st.0.len() > 0 ==> st.0.last().1.len() > 0 && st.1.len() > 0 && st.1.last() == (st.0.last().0, st.0.last().1.last())
        }),
        forall|k: int| 0 <= k < verses.len()
            ==> #[trigger] index_state(verses).1.contains((verses[k].0.book, verses[k].0.chapter)),
    decreases verses.len(),
{
    if verses.len() > 0 {
        let init = verses.drop_last();
        lemma_index_state(init);
        let st0 = index_state(init);
        let r = verses.last().0;
        let st = index_state(verses);
        assert(st == index_step(st0, r));
        assert forall|k: int| 0 <= k < verses.len()
            implies #[trigger] index_state(verses).1.contains((verses[k].0.book, verses[k].0.chapter)) by {
            if k < init.len() {
                assert(init[k] == verses[k]);
                assert(st0.1.contains((init[k].0.book, init[k].0.chapter)));
                let j = choose|j: int| 0 <= j < st0.1.len() && st0.1[j] == (init[k].0.book, init[k].0.chapter);
                assert(st.1[j] == st0.1[j]);
            } else {
                assert(verses[k].0 == r);
                assert(st.1.last() == (r.book, r.chapter));
            }
        }
    }
}

/// The parsed entries of a canon all belong to that canon.
pub proof fn lemma_parsed_canon(canon: Canon, flat: Seq<(Seq<char>, Seq<char>)>)
    ensures
        forall|k: int| 0 <= k < parsed_verses(canon, flat).len() ==> (#[trigger] parsed_verses(canon, flat)[k]).0.canon == canon,
    decreases flat.len(),
{
    if flat.len() > 0 {
        lemma_parsed_canon(canon, flat.drop_last());
    }
}

/// The pool of verses for a difficulty: the playable ones, or every verse when none is playable.
pub open spec fn pool_spec(verses: Seq<(RefView, Seq<char>)>, d: Difficulty) -> Seq<(RefView, Seq<char>)> {
    let playable = verses.filter(|v: (RefView, Seq<char>)| playable_spec(v.1, d));
    if playable.len() == 0 {
        verses
    } else {
        playable
    }
}

pub fn copy_verses(verses: &Vec<Verse>) -> (r: Vec<Verse>)
    ensures
        verses_view(r@) == verses_view(verses@),
{
    let mut r: Vec<Verse> = Vec::new();
    let mut i: usize = 0;
    while i < verses.len()
        invariant
            i <= verses.len(),
            verses_view(r@) == verses_view(verses@).take(i as int),
        decreases verses.len() - i,
    {
        let ghost before = verses_view(r@);
        let x = verses[i].copy();
        r.push(x);
        assert(verses_view(r@) =~= before.push(verses@[i as int]@));
        assert(verses_view(verses@).take(i + 1) =~= verses_view(verses@).take(i as int).push(verses@[i as int]@));
        i = i + 1;
    }
    assert(verses_view(verses@).take(verses.len() as int) =~= verses_view(verses@));
    r
}

fn filtered_verses(verses: &Vec<Verse>, difficulty: Difficulty) -> (r: Vec<Verse>)
    ensures
        verses_view(r@) == pool_spec(verses_view(verses@), difficulty),
{
    let ghost all = verses_view(verses@);
    let ghost keep = |v: (RefView, Seq<char>)| playable_spec(v.1, difficulty);
    let mut filtered: Vec<Verse> = Vec::new();
    let mut i: usize = 0;
    while i < verses.len()
        invariant
            i <= verses.len(),
            all == verses_view(verses@),
            keep == (|v: (RefView, Seq<char>)| playable_spec(v.1, difficulty)),
            verses_view(filtered@) == all.take(i as int).filter(keep),
        decreases verses.len() - i,
    {
        proof {
            assert(all.take(i + 1) =~= all.take(i as int).push(all[i as int]));
            all.take(i as int).lemma_filter_push(all[i as int], keep);
        }
        if is_playable_verse(verses[i].text.as_str(), difficulty) {
            let ghost before = verses_view(filtered@);
            filtered.push(verses[i].copy());
            assert(verses_view(filtered@) =~= before.push(all[i as int]));
        }
        i = i + 1;
    }
    assert(all.take(verses.len() as int) =~= all);
    if filtered.len() == 0 {
        copy_verses(verses)
    } else {
        filtered
    }
}

} // verus!

verus! {

pub open spec fn flat_view(flat: Seq<FlatVerse>) -> Seq<(Seq<char>, Seq<char>)> {
    flat.map_values(|f: FlatVerse| (f.reference@, f.text@))
}

pub open spec fn order_view(order: Seq<ChapterRef>) -> Seq<(Seq<char>, u16)> {
    order.map_values(|c: ChapterRef| (c.book@, c.chapter))
}

/// The scripture of one canon: its verses, its books with their chapters, the playable
/// pool for each difficulty and every chapter in reading order.
#[derive(Clone, PartialEq)]
pub struct Scriptures {
    pub verses: Vec<Verse>,
    pub books: Vec<BookInfo>,
    easy_verses: Vec<Verse>,
    normal_verses: Vec<Verse>,
    hard_verses: Vec<Verse>,
    chapter_order: Vec<ChapterRef>,
}

impl Scriptures {
    /// Every verse, in order.
    pub closed spec fn verse_list(&self) -> Seq<(RefView, Seq<char>)> {
        verses_view(self.verses@)
    }

    /// The books with their chapters.
    pub closed spec fn book_list(&self) -> Seq<(Seq<char>, Seq<u16>)> {
        books_view(self.books@)
    }

    /// The books, each with its chapters.
    pub fn book_infos(&self) -> (r: &Vec<BookInfo>)
        ensures
            books_view(r@) == self.book_list(),
    {
        &self.books
    }

    /// Every verse, in order.
    pub fn all_verses(&self) -> (r: &Vec<Verse>)
        ensures
            verses_view(r@) == self.verse_list(),
    {
        &self.verses
    }

    /// The pool of verses kept for a difficulty.
    pub closed spec fn pool_view(&self, d: Difficulty) -> Seq<(RefView, Seq<char>)> {
        match d {
            Difficulty::Easy => verses_view(self.easy_verses@),
            Difficulty::Normal => verses_view(self.normal_verses@),
            Difficulty::Hard => verses_view(self.hard_verses@),
        }
    }

    /// Every chapter, in reading order.
    pub closed spec fn chapter_order_view(&self) -> Seq<(Seq<char>, u16)> {
        order_view(self.chapter_order@)
    }

    /// Builds the scripture of a canon from flat entries: entries whose reference does not
    /// parse are skipped; books and chapters follow the order of the entries.
    pub fn from_flat_verses(canon: Canon, flat_verses: Vec<FlatVerse>) -> (r: Self)
        ensures
            r.verse_list() == parsed_verses(canon, flat_view(flat_verses@)),
            r.book_list() == index_state(parsed_verses(canon, flat_view(flat_verses@))).0,
            r.chapter_order_view() == index_state(parsed_verses(canon, flat_view(flat_verses@))).1,
            forall|d: Difficulty| #[trigger] r.pool_view(d) == pool_spec(r.verse_list(), d),
            indexed(r, canon),
    {
        proof {
            lemma_parsed_canon(canon, flat_view(flat_verses@));
        }
        let ghost flat = flat_view(flat_verses@);
        let mut verses: Vec<Verse> = Vec::new();
        let mut books: Vec<BookInfo> = Vec::new();
        let mut chapter_order: Vec<ChapterRef> = Vec::new();
        let mut i: usize = 0;
        while i < flat_verses.len()
            invariant
                i <= flat_verses.len(),
                flat == flat_view(flat_verses@),
                verses_view(verses@) == parsed_verses(canon, flat.take(i as int)),
                (books_view(books@), order_view(chapter_order@)) == index_state(verses_view(verses@)),
            decreases flat_verses.len() - i,
        {
            let item = &flat_verses[i];
            proof {
                assert(flat.take(i + 1).drop_last() =~= flat.take(i as int));
                assert(flat.take(i + 1).last() == flat[i as int]);
            }
            match parse_reference(canon, item.reference.as_str()) {
                None => {},
                Some(reference) => {
                    let ghost old_verses = verses_view(verses@);
                    let ghost st = index_state(old_verses);
                    let ghost rv = reference@;
                    let ghost old_books = books_view(books@);
                    let new_book = books.len() == 0 || books[books.len() - 1].name != reference.book;
                    if new_book {
                        books.push(BookInfo { name: reference.book.clone(), chapters: Vec::new() });
                        assert(books_view(books@) =~= old_books.push((rv.book, Seq::<u16>::empty())));
                    }
                    let ghost mid_books = books_view(books@);
                    assert(mid_books == (if st.0.len() == 0 || st.0.last().0 != rv.book {
                        st.0.push((rv.book, Seq::<u16>::empty()))
                    } else {
                        st.0
                    }));
                    let mut last = books.pop().unwrap();
                    let ghost rest = books_view(books@);
                    assert(mid_books =~= rest.push(last@));
                    if last.chapters.len() == 0 || last.chapters[last.chapters.len() - 1] != reference.chapter {
                        let ghost old_order = order_view(chapter_order@);
                        last.chapters.push(reference.chapter);
                        chapter_order.push(ChapterRef { book: reference.book.clone(), chapter: reference.chapter });
                        assert(order_view(chapter_order@) =~= old_order.push((rv.book, rv.chapter)));
                    }
                    books.push(last);
                    assert(books_view(books@) =~= rest.push(last@));
                    let text = item.text.clone();
                    verses.push(Verse { reference, text });
                    assert(verses_view(verses@) =~= old_verses.push((rv, item.text@)));
                    assert(verses_view(verses@).drop_last() =~= old_verses);
                    let ghost stepped = index_step(st, rv);
                    assert(books_view(books@) =~= stepped.0);
                },
            }
            i = i + 1;
        }
        assert(flat.take(flat_verses.len() as int) =~= flat);
        let easy_verses = filtered_verses(&verses, Difficulty::Easy);
        let normal_verses = filtered_verses(&verses, Difficulty::Normal);
        let hard_verses = filtered_verses(&verses, Difficulty::Hard);
        let r = Scriptures { verses, books, easy_verses, normal_verses, hard_verses, chapter_order };
        assert forall|d: Difficulty| #[trigger] r.pool_view(d) == pool_spec(r.verse_list(), d) by {
            match d {
                Difficulty::Easy => {},
                Difficulty::Normal => {},
                Difficulty::Hard => {},
            }
        }
        r
    }
}

} // verus!

verus! {

/// Whether a verse lies in the chapter of a reference.
pub open spec fn in_chapter_of(v: (RefView, Seq<char>), r: RefView) -> bool {
    v.0.canon == r.canon && v.0.book == r.book && v.0.chapter == r.chapter
}

/// The verses of a list whose book a selection includes.
pub open spec fn verses_in_selection(verses: Seq<(RefView, Seq<char>)>, sel: BookSelection) -> Seq<(RefView, Seq<char>)> {
    verses.filter(|v: (RefView, Seq<char>)| sel.includes(v.0.book))
}

/// The chapters of a reading order whose book a selection includes.
pub open spec fn chapters_in_selection(order: Seq<(Seq<char>, u16)>, sel: BookSelection) -> Seq<(Seq<char>, u16)> {
    order.filter(|c: (Seq<char>, u16)| sel.includes(c.0))
}

/// The verses of `verses` that a selection includes, in order.
fn select_verses(verses: &Vec<Verse>, scope: &BookScope) -> (r: Vec<Verse>)
    ensures
        verses_view(r@) == verses_in_selection(verses_view(verses@), scope@),
{
    let ghost all = verses_view(verses@);
    let ghost keep = |v: (RefView, Seq<char>)| scope@.includes(v.0.book);
    let mut r: Vec<Verse> = Vec::new();
    let mut i: usize = 0;
    while i < verses.len()
        invariant
            i <= verses.len(),
            all == verses_view(verses@),
            keep == (|v: (RefView, Seq<char>)| scope@.includes(v.0.book)),
            verses_view(r@) == all.take(i as int).filter(keep),
        decreases verses.len() - i,
    {
        proof {
            assert(all.take(i + 1) =~= all.take(i as int).push(all[i as int]));
            all.take(i as int).lemma_filter_push(all[i as int], keep);
        }
        if scope.includes(verses[i].reference.book.as_str()) {
            let ghost before = verses_view(r@);
            r.push(verses[i].copy());
            assert(verses_view(r@) =~= before.push(all[i as int]));
        }
        i = i + 1;
    }
    assert(all.take(verses.len() as int) =~= all);
    r
}

impl Scriptures {
    /// The verses of the chapter that contains `reference`, in order.
    pub fn verses_for_chapter(&self, reference: &Reference) -> (r: Vec<Verse>)
        ensures
            verses_view(r@) == self.verse_list().filter(|v: (RefView, Seq<char>)| in_chapter_of(v, reference@)),
    {
        let ghost all = verses_view(self.verses@);
        let ghost keep = |v: (RefView, Seq<char>)| in_chapter_of(v, reference@);
        let mut r: Vec<Verse> = Vec::new();
        let mut i: usize = 0;
        while i < self.verses.len()
            invariant
                i <= self.verses.len(),
                all == verses_view(self.verses@),
                keep == (|v: (RefView, Seq<char>)| in_chapter_of(v, reference@)),
                verses_view(r@) == all.take(i as int).filter(keep),
            decreases self.verses.len() - i,
        {
            proof {
                assert(all.take(i + 1) =~= all.take(i as int).push(all[i as int]));
                all.take(i as int).lemma_filter_push(all[i as int], keep);
            }
            let verse = &self.verses[i];
            if verse.reference.canon == reference.canon && verse.reference.book == reference.book
                && verse.reference.chapter == reference.chapter {
                let ghost before = verses_view(r@);
                r.push(verse.copy());
                assert(verses_view(r@) =~= before.push(all[i as int]));
            }
            i = i + 1;
        }
        assert(all.take(self.verses.len() as int) =~= all);
        r
    }

    pub fn verse_count_for_difficulty(&self, difficulty: Difficulty) -> (n: usize)
        ensures
            n == self.pool_view(difficulty).len(),
    {
        self.verses_for_difficulty(difficulty).len()
    }

    pub fn verses_for_difficulty(&self, difficulty: Difficulty) -> (r: &[Verse])
        ensures
            verses_view(r@) == self.pool_view(difficulty),
    {
        match difficulty {
            Difficulty::Easy => self.easy_verses.as_slice(),
            Difficulty::Normal => self.normal_verses.as_slice(),
            Difficulty::Hard => self.hard_verses.as_slice(),
        }
    }

    fn pool(&self, difficulty: Difficulty) -> (r: &Vec<Verse>)
        ensures
            verses_view(r@) == self.pool_view(difficulty),
    {
        match difficulty {
            Difficulty::Easy => &self.easy_verses,
            Difficulty::Normal => &self.normal_verses,
            Difficulty::Hard => &self.hard_verses,
        }
    }

    pub fn scoped_verses_for_difficulty(&self, difficulty: Difficulty, scope: &BookScope) -> (r: Vec<Verse>)
        ensures
            verses_view(r@) == verses_in_selection(self.pool_view(difficulty), scope@),
    {
        select_verses(self.pool(difficulty), scope)
    }

    pub fn scoped_verse_count_for_difficulty(&self, difficulty: Difficulty, scope: &BookScope) -> (n: usize)
        ensures
            n == verses_in_selection(self.pool_view(difficulty), scope@).len(),
    {
        let pool = self.pool(difficulty);
        let ghost all = verses_view(pool@);
        let ghost keep = |v: (RefView, Seq<char>)| scope@.includes(v.0.book);
        let mut n: usize = 0;
        let mut i: usize = 0;
        while i < pool.len()
            invariant
                i <= pool.len(),
                all == verses_view(pool@),
                keep == (|v: (RefView, Seq<char>)| scope@.includes(v.0.book)),
                n == all.take(i as int).filter(keep).len(),
                n <= i,
            decreases pool.len() - i,
        {
            proof {
                assert(all.take(i + 1) =~= all.take(i as int).push(all[i as int]));
                all.take(i as int).lemma_filter_push(all[i as int], keep);
            }
            if scope.includes(pool[i].reference.book.as_str()) {
                n = n + 1;
            }
            i = i + 1;
        }
        assert(all.take(pool.len() as int) =~= all);
        n
    }

    /// The `index`-th verse of the pool for a difficulty among those a selection includes.
    pub fn scoped_verse_for_difficulty(&self, difficulty: Difficulty, scope: &BookScope, index: usize) -> (r: Option<Verse>)
        ensures
            match r {
                Some(v) => index < verses_in_selection(self.pool_view(difficulty), scope@).len()
                    && v@ == verses_in_selection(self.pool_view(difficulty), scope@)[index as int],
                None => index >= verses_in_selection(self.pool_view(difficulty), scope@).len(),
            },
    {
        let selected = self.scoped_verses_for_difficulty(difficulty, scope);
        if index < selected.len() {
            assert(verses_view(selected@)[index as int] == selected@[index as int]@);
            Some(selected[index].copy())
        } else {
            None
        }
    }

    pub fn scoped_total_verse_count(&self, scope: &BookScope) -> (n: usize)
        ensures
            n == verses_in_selection(self.verse_list(), scope@).len(),
    {
        let ghost all = verses_view(self.verses@);
        let ghost keep = |v: (RefView, Seq<char>)| scope@.includes(v.0.book);
        let mut n: usize = 0;
        let mut i: usize = 0;
        while i < self.verses.len()
            invariant
                i <= self.verses.len(),
                all == verses_view(self.verses@),
                keep == (|v: (RefView, Seq<char>)| scope@.includes(v.0.book)),
                n == all.take(i as int).filter(keep).len(),
                n <= i,
            decreases self.verses.len() - i,
        {
            proof {
                assert(all.take(i + 1) =~= all.take(i as int).push(all[i as int]));
                all.take(i as int).lemma_filter_push(all[i as int], keep);
            }
            if scope.includes(self.verses[i].reference.book.as_str()) {
                n = n + 1;
            }
            i = i + 1;
        }
        assert(all.take(self.verses.len() as int) =~= all);
        n
    }

    /// The chapters that a selection includes, in reading order.
    fn scoped_chapters(&self, scope: &BookScope) -> (r: Vec<ChapterRef>)
        ensures
            order_view(r@) == chapters_in_selection(self.chapter_order_view(), scope@),
    {
        let ghost all = order_view(self.chapter_order@);
        let ghost keep = |c: (Seq<char>, u16)| scope@.includes(c.0);
        let mut r: Vec<ChapterRef> = Vec::new();
        let mut i: usize = 0;
        while i < self.chapter_order.len()
            invariant
                i <= self.chapter_order.len(),
                all == order_view(self.chapter_order@),
                keep == (|c: (Seq<char>, u16)| scope@.includes(c.0)),
                order_view(r@) == all.take(i as int).filter(keep),
            decreases self.chapter_order.len() - i,
        {
            proof {
                assert(all.take(i + 1) =~= all.take(i as int).push(all[i as int]));
                all.take(i as int).lemma_filter_push(all[i as int], keep);
            }
            let item = &self.chapter_order[i];
            if scope.includes(item.book.as_str()) {
                let ghost before = order_view(r@);
                r.push(ChapterRef { book: item.book.clone(), chapter: item.chapter });
                assert(order_view(r@) =~= before.push(all[i as int]));
            }
            i = i + 1;
        }
        assert(all.take(self.chapter_order.len() as int) =~= all);
        r
    }

    /// Where a chapter stands among the chapters a selection includes, in reading order.
    pub fn chapter_index_in_scope(&self, scope: &BookScope, book: &str, chapter: u16) -> (r: Option<usize>)
        ensures
            match r {
                Some(i) => chapters_in_selection(self.chapter_order_view(), scope@).index_of_first((book@, chapter)) == Some(i as int),
                None => chapters_in_selection(self.chapter_order_view(), scope@).index_of_first((book@, chapter)) is None,
            },
    {
        let chapters = self.scoped_chapters(scope);
        let ghost order = order_view(chapters@);
        let ghost target = (book@, chapter);
        proof {
            order.index_of_first_ensures(target);
        }
        let mut j: usize = 0;
        while j < chapters.len()
            invariant
                j <= chapters.len(),
                order == order_view(chapters@),
                target == (book@, chapter),
                order == chapters_in_selection(self.chapter_order_view(), scope@),
                forall|k: int| 0 <= k < j ==> order[k] != target,
            decreases chapters.len() - j,
        {
            if chapters[j].chapter == chapter && str_equal(chapters[j].book.as_str(), book) {
                assert(order[j as int] == (chapters@[j as int].book@, chapters@[j as int].chapter));
                assert(order[j as int] == target);
                proof {
                    order.index_of_first_ensures(target);
                    assert(order.contains(target));
                    let idx = order.index_of_first(target).unwrap();
                    assert(idx == j);
                }
                return Some(j);
            }
            j = j + 1;
        }
        assert(!order.contains(target));
        None
    }

    /// How many chapters a selection includes.
    pub fn chapter_count_for_scope(&self, scope: &BookScope) -> (n: usize)
        ensures
            n == chapters_in_selection(self.chapter_order_view(), scope@).len(),
    {
        let chapters = self.scoped_chapters(scope);
        chapters.len()
    }
}

} // verus!

verus! {

/// The loaded scripture of each canon.
#[derive(Clone, PartialEq)]
pub struct ScriptureLibrary {
    canons: Vec<(Canon, Scriptures)>,
}

/// The chapters of one canon's scripture that a selection includes, in reading order.
pub open spec fn scoped_order(s: Scriptures, sel: BookSelection) -> Seq<(Seq<char>, u16)> {
    chapters_in_selection(s.chapter_order_view(), sel)
}

/// Where a chapter stands when the chapters of every canon of a scope are laid end to end
/// in scope order; `None` when a canon before it (or its own) is not loaded, or the chapter
/// is not among the selected ones.
pub open spec fn chapter_position(
    lib: ScriptureLibrary,
    scope: Seq<(Canon, BookSelection)>,
    canon: Canon,
    book: Seq<char>,
    chapter: u16,
) -> Option<int>
    decreases scope.len(),
{
    if scope.len() == 0 {
        None
    } else {
        match lib.lookup(scope[0].0) {
            None => None,
            Some(s) => if scope[0].0 == canon {
                scoped_order(s, scope[0].1).index_of_first((book, chapter))
            } else {
                match chapter_position(lib, scope.drop_first(), canon, book, chapter) {
                    Some(i) => Some(i + scoped_order(s, scope[0].1).len()),
                    None => None,
                }
            },
        }
    }
}

/// How many chapters a scope spans, over the canons that are loaded.
pub open spec fn scope_chapter_total(lib: ScriptureLibrary, scope: Seq<(Canon, BookSelection)>) -> nat
    decreases scope.len(),
{
    if scope.len() == 0 {
        0
    } else {
        scope_chapter_total(lib, scope.drop_first()) + match lib.lookup(scope[0].0) {
            None => 0nat,
            Some(s) => scoped_order(s, scope[0].1).len(),
        }
    }
}

pub open spec fn abs_diff(a: int, b: int) -> int {
    if a >= b { a - b } else { b - a }
}

/// The score of a guess: by the flattened chapter distance when both chapters are found in
/// the scope, else as far off as can be.
pub open spec fn score_spec(
    lib: ScriptureLibrary,
    scope: Seq<(Canon, BookSelection)>,
    answer: RefView,
    guess_canon: Canon,
    guess_book: Seq<char>,
    guess_chapter: u16,
) -> Score {
    let distance: u32 = match (
        chapter_position(lib, scope, answer.canon, answer.book, answer.chapter),
        chapter_position(lib, scope, guess_canon, guess_book, guess_chapter),
    ) {
        (Some(a), Some(g)) => abs_diff(a, g) as u32,
        _ => u32::MAX,
    };
    Score { points: points_for_distance(distance), chapter_distance: distance }
}

impl ScriptureLibrary {
    /// The scripture loaded for a canon.
    pub closed spec fn lookup(self, canon: Canon) -> Option<Scriptures> {
        let i = choose_first_canon(self.canons@, canon);
        if i == -1 { None } else { Some(self.canons@[i].1) }
    }

    /// Loads (or replaces) the scripture of a canon.
    pub fn insert(&mut self, canon: Canon, scriptures: Scriptures)
        ensures
            final(self).lookup(canon) == Some(scriptures),
            forall|c: Canon| c != canon ==> #[trigger] final(self).lookup(c) == old(self).lookup(c),
    {
        proof {
            lemma_first_canon(self.canons@, canon);
        }
        let mut i: usize = 0;
        while i < self.canons.len()
            invariant
                i <= self.canons.len(),
                self.canons@ == old(self).canons@,
                forall|j: int| 0 <= j < i ==> self.canons@[j].0 != canon,
            decreases self.canons.len() - i,
        {
            if self.canons[i].0 == canon {
                let ghost before = self.canons@;
                self.canons.set(i, (canon, scriptures));
                proof {
                    lemma_first_canon(before, canon);
                    lemma_first_canon(self.canons@, canon);
                    assert(self.canons@[i as int].0 == canon);
                    assert forall|c: Canon| c != canon implies #[trigger] self.lookup(c) == old(self).lookup(c) by {
                        lemma_first_canon(before, c);
                        lemma_first_canon(self.canons@, c);
                        lemma_same_first_canon(before, self.canons@, c, i as int);
                    }
                }
                return;
            }
            i = i + 1;
        }
        let ghost before = self.canons@;
        self.canons.push((canon, scriptures));
        proof {
            lemma_first_canon(before, canon);
            lemma_first_canon(self.canons@, canon);
            assert(self.canons@[before.len() as int] == (canon, scriptures));
            assert(forall|j: int| 0 <= j < before.len() ==> self.canons@[j] == before[j]);
            assert(choose_first_canon(self.canons@, canon) == before.len());
            assert forall|c: Canon| c != canon implies #[trigger] self.lookup(c) == old(self).lookup(c) by {
                lemma_first_canon(before, c);
                lemma_first_canon(self.canons@, c);
                let a = choose_first_canon(before, c);
                let b = choose_first_canon(self.canons@, c);
                if a != -1 {
                    assert(self.canons@[a].0 == c);
                }
                if b != -1 && b < before.len() {
                    assert(before[b].0 == c);
                }
            }
        }
    }

    pub fn scriptures(&self, canon: Canon) -> (r: Option<&Scriptures>)
        ensures
            match r {
                Some(s) => self.lookup(canon) == Some(*s),
                None => self.lookup(canon) is None,
            },
    {
        proof {
            lemma_first_canon(self.canons@, canon);
        }
        let mut i: usize = 0;
        while i < self.canons.len()
            invariant
                i <= self.canons.len(),
                forall|j: int| 0 <= j < i ==> self.canons@[j].0 != canon,
            decreases self.canons.len() - i,
        {
            if self.canons[i].0 == canon {
                proof {
                    lemma_first_canon(self.canons@, canon);
                }
                return Some(&self.canons[i].1);
            }
            i = i + 1;
        }
        None
    }

    /// Where a chapter stands in a scope's flattened chapter order.
    fn chapter_index(&self, scope: &GameScope, canon: Canon, book: &str, chapter: u16) -> (r: Option<usize>)
        requires
            scope_chapter_total(*self, scope@) <= usize::MAX,
        ensures
            match r {
                Some(i) => chapter_position(*self, scope@, canon, book@, chapter) == Some(i as int),
                None => chapter_position(*self, scope@, canon, book@, chapter) is None,
            },
    {
        let ghost full = scope@;
        assert(full.skip(0) =~= full);
        let mut offset: usize = 0;
        let mut i: usize = 0;
        while i < scope.canons.len()
            invariant
                i <= scope.canons.len(),
                full == scope@,
                offset + scope_chapter_total(*self, full.skip(i as int)) <= usize::MAX,
                chapter_position(*self, full, canon, book@, chapter) == match chapter_position(
                    *self, full.skip(i as int), canon, book@, chapter) {
                    Some(p) => Some(p + offset),
                    None => None,
                },
            decreases scope.canons.len() - i,
        {
            let canon_scope = &scope.canons[i];
            let ghost rest = full.skip(i as int);
            assert(rest[0] == canon_scope@);
            assert(rest.drop_first() =~= full.skip(i + 1));
            let scriptures = match self.scriptures(canon_scope.canon) {
                Some(s) => s,
                None => return None,
            };
            proof {
                scoped_order(*scriptures, canon_scope.books@).index_of_first_ensures((book@, chapter));
            }
            if canon_scope.canon == canon {
                return match scriptures.chapter_index_in_scope(&canon_scope.books, book, chapter) {
                    Some(index) => Some(offset + index),
                    None => None,
                };
            }
            let count = scriptures.chapter_count_for_scope(&canon_scope.books);
            offset = offset + count;
            i = i + 1;
        }
        assert(full.skip(scope.canons.len() as int).len() == 0);
        None
    }

    /// Scores a guess against an answer by chapter distance within the scope.
    pub fn score(
        &self,
        scope: &GameScope,
        answer: &Reference,
        guess_canon: Canon,
        guess_book: &str,
        guess_chapter: u16,
    ) -> (r: Score)
        requires
            scope_chapter_total(*self, scope@) <= usize::MAX,
        ensures
            r == score_spec(*self, scope@, answer@, guess_canon, guess_book@, guess_chapter),
    {
        let answer_index = match self.chapter_index(scope, answer.canon, answer.book.as_str(), answer.chapter) {
            Some(i) => i,
            None => return Score::from_chapter_distance(u32::MAX),
        };
        let guess_index = match self.chapter_index(scope, guess_canon, guess_book, guess_chapter) {
            Some(i) => i,
            None => return Score::from_chapter_distance(u32::MAX),
        };
        let distance = if answer_index >= guess_index {
            answer_index - guess_index
        } else {
            guess_index - answer_index
        };
        Score::from_chapter_distance(distance as u32)
    }

    /// Whether the chapters a scope spans can be counted in a `usize`.
    pub fn chapters_fit(&self, scope: &GameScope) -> (r: bool)
        ensures
            r == (scope_chapter_total(*self, scope@) <= usize::MAX),
    {
        let ghost sv = scope@;
        let mut total: usize = 0;
        let mut i: usize = 0;
        assert(sv.skip(0) =~= sv);
        while i < scope.canons.len()
            invariant
                i <= scope.canons.len(),
                sv == scope@,
                total + scope_chapter_total(*self, sv.skip(i as int)) == scope_chapter_total(*self, sv),
            decreases scope.canons.len() - i,
        {
            let ghost rest = sv.skip(i as int);
            assert(rest[0] == scope.canons@[i as int]@);
            assert(rest.drop_first() =~= sv.skip(i + 1));
            let canon_scope = &scope.canons[i];
            match self.scriptures(canon_scope.canon) {
                Some(scriptures) => {
                    match total.checked_add(scriptures.chapter_count_for_scope(&canon_scope.books)) {
                        Some(n) => {
                            total = n;
                        },
                        None => {
                            return false;
                        },
                    }
                },
                None => {},
            }
            i = i + 1;
        }
        assert(sv.skip(i as int).len() == 0);
        true
    }
}

/// Whether a scripture was indexed from verses of a canon: every verse is of that canon,
/// the reading order lists the chapters of its verses, and each pool is drawn from them.
pub open spec fn indexed(s: Scriptures, canon: Canon) -> bool {
    &&& forall|k: int| 0 <= k < s.verse_list().len() ==> (#[trigger] s.verse_list()[k]).0.canon == canon
    &&& s.chapter_order_view() == index_state(s.verse_list()).1
    &&& forall|d: Difficulty| #[trigger] s.pool_view(d) == pool_spec(s.verse_list(), d)
}

/// Whether every loaded scripture was indexed for the canon it is loaded under.
pub open spec fn library_consistent(lib: ScriptureLibrary) -> bool {
    forall|c: Canon| #[trigger] lib.lookup(c) matches Some(s) ==> indexed(s, c)
}

/// Loading a scripture indexed for its canon keeps a library consistent.
pub proof fn lemma_insert_keeps_consistent(before: ScriptureLibrary, after: ScriptureLibrary, canon: Canon, s: Scriptures)
    requires
        library_consistent(before),
        indexed(s, canon),
        after.lookup(canon) == Some(s),
        forall|c: Canon| c != canon ==> #[trigger] after.lookup(c) == before.lookup(c),
    ensures
        library_consistent(after),
{
    assert forall|c: Canon| #[trigger] after.lookup(c) is Some implies indexed(after.lookup(c)->Some_0, c) by {
        if c != canon {
            assert(after.lookup(c) == before.lookup(c));
        }
    }
}

/// The chapter of every verse of a consistent library's canon is placed within a scope
/// that selects its book, when every canon up to the first entry for it is loaded.
pub proof fn lemma_verse_is_placed(
    lib: ScriptureLibrary,
    scope: Seq<(Canon, BookSelection)>,
    v: (RefView, Seq<char>),
)
    requires
        library_consistent(lib),
        scope_position(scope, v.0.canon) != -1,
        forall|j: int| 0 <= j <= scope_position(scope, v.0.canon) ==> (#[trigger] lib.lookup(scope[j].0)) is Some,
        lib.lookup(v.0.canon) matches Some(s) && s.verse_list().contains(v),
        scope[scope_position(scope, v.0.canon)].1.includes(v.0.book),
    ensures
        chapter_position(lib, scope, v.0.canon, v.0.book, v.0.chapter) is Some,
    decreases scope.len(),
{
    lemma_scope_position(scope, v.0.canon);
    let s0 = lib.lookup(scope[0].0).unwrap();
    if scope[0].0 == v.0.canon {
        assert(scope_position(scope, v.0.canon) == 0);
        let s = lib.lookup(v.0.canon).unwrap();
        let k = choose|k: int| 0 <= k < s.verse_list().len() && s.verse_list()[k] == v;
        lemma_index_state(s.verse_list());
        let order = s.chapter_order_view();
        let target = (v.0.book, v.0.chapter);
        assert(order.contains(target));
        let i = choose|i: int| 0 <= i < order.len() && order[i] == target;
        let sel = scope[0].1;
        let keep = |c: (Seq<char>, u16)| sel.includes(c.0);
        order.filter_lemma(keep);
        assert(keep(order[i]));
        assert(chapters_in_selection(order, sel).contains(target));
        scoped_order(s, sel).index_of_first_ensures(target);
    } else {
        let rest = scope.drop_first();
        assert(scope_position(scope, v.0.canon) == scope_position(rest, v.0.canon) + 1);
        assert forall|j: int| 0 <= j <= scope_position(rest, v.0.canon) implies (#[trigger] lib.lookup(rest[j].0)) is Some by {
            assert(rest[j] == scope[j + 1]);
        }
        assert(rest[scope_position(rest, v.0.canon)] == scope[scope_position(scope, v.0.canon)]);
        lemma_verse_is_placed(lib, rest, v);
    }
}

impl Default for ScriptureLibrary {
    /// A library with nothing loaded.
    fn default() -> (r: Self)
        ensures
            forall|c: Canon| #[trigger] r.lookup(c) is None,
    {
        let r = ScriptureLibrary { canons: Vec::new() };
        assert forall|c: Canon| #[trigger] r.lookup(c) is None by {
            assert(choose_first_canon(r.canons@, c) == -1);
        }
        r
    }
}

/// The position of the first entry for `canon`, or -1.
pub open spec fn choose_first_canon(entries: Seq<(Canon, Scriptures)>, canon: Canon) -> int
    decreases entries.len(),
{
    if entries.len() == 0 {
        -1
    } else if entries[0].0 == canon {
        0
    } else {
        let rest = choose_first_canon(entries.drop_first(), canon);
        if rest == -1 { -1 } else { rest + 1 }
    }
}

/// Overwriting an entry of one canon leaves the first entry of every other canon in place.
proof fn lemma_same_first_canon(a: Seq<(Canon, Scriptures)>, b: Seq<(Canon, Scriptures)>, c: Canon, i: int)
    requires
        a.len() == b.len(),
        0 <= i < a.len(),
        a[i].0 != c,
        b[i].0 != c,
        forall|j: int| 0 <= j < a.len() && j != i ==> a[j] == b[j],
    ensures
        choose_first_canon(a, c) == choose_first_canon(b, c),
        choose_first_canon(a, c) != -1 ==> a[choose_first_canon(a, c)] == b[choose_first_canon(b, c)],
{
    lemma_first_canon(a, c);
    lemma_first_canon(b, c);
    let x = choose_first_canon(a, c);
    let y = choose_first_canon(b, c);
    if x != -1 {
        assert(b[x].0 == c);
    }
    if y != -1 {
        assert(a[y].0 == c);
    }
}

proof fn lemma_first_canon(entries: Seq<(Canon, Scriptures)>, canon: Canon)
    ensures
        -1 <= choose_first_canon(entries, canon) < entries.len(),
        choose_first_canon(entries, canon) == -1 <==> forall|j: int| 0 <= j < entries.len() ==> entries[j].0 != canon,
        choose_first_canon(entries, canon) != -1 ==> {
            &&& entries[choose_first_canon(entries, canon)].0 == canon
            &&& forall|j: int| 0 <= j < choose_first_canon(entries, canon) ==> entries[j].0 != canon
        },
    decreases entries.len(),
{
    if entries.len() > 0 {
        lemma_first_canon(entries.drop_first(), canon);
        if entries[0].0 != canon {
            assert forall|j: int| 1 <= j < entries.len() implies entries[j].0 == entries.drop_first()[j - 1].0 by {}
        }
    }
}

} // verus!

verus! {

/// Naming the answer's own chapter earns the full score whenever the answer lies in the scope.
pub proof fn lemma_exact_guess_gets_max(
    lib: ScriptureLibrary,
    scope: Seq<(Canon, BookSelection)>,
    answer: RefView,
)
    requires
        chapter_position(lib, scope, answer.canon, answer.book, answer.chapter) is Some,
    ensures
        score_spec(lib, scope, answer, answer.canon, answer.book, answer.chapter).points
            == crate::scoring::MAX_SCORE,
        score_spec(lib, scope, answer, answer.canon, answer.book, answer.chapter).chapter_distance == 0,
{
}

/// A guess (or answer) that cannot be placed in the scope scores nothing.
pub proof fn lemma_unplaceable_guess_scores_zero(
    lib: ScriptureLibrary,
    scope: Seq<(Canon, BookSelection)>,
    answer: RefView,
    guess_canon: Canon,
    guess_book: Seq<char>,
    guess_chapter: u16,
)
    requires
        chapter_position(lib, scope, guess_canon, guess_book, guess_chapter) is None
            || chapter_position(lib, scope, answer.canon, answer.book, answer.chapter) is None,
    ensures
        score_spec(lib, scope, answer, guess_canon, guess_book, guess_chapter).points == 0,
{
    assert(u32::MAX * crate::scoring::POINTS_LOST_PER_CHAPTER >= crate::scoring::MAX_SCORE);
}

/// Scoring is symmetric: swapping the answer's chapter and the guessed chapter gives the same score.
pub proof fn lemma_score_symmetric(
    lib: ScriptureLibrary,
    scope: Seq<(Canon, BookSelection)>,
    a: RefView,
    b: RefView,
)
    ensures
        score_spec(lib, scope, a, b.canon, b.book, b.chapter) == score_spec(lib, scope, b, a.canon, a.book, a.chapter),
{
}

/// The pool of a difficulty is never empty while the canon has verses, and holds only its verses.
pub proof fn lemma_pool_nonempty(verses: Seq<(RefView, Seq<char>)>, d: Difficulty)
    ensures
        verses.len() > 0 ==> pool_spec(verses, d).len() > 0,
        forall|v: (RefView, Seq<char>)| pool_spec(verses, d).contains(v) ==> verses.contains(v),
{
    let p = |v: (RefView, Seq<char>)| playable_spec(v.1, d);
    assert forall|v: (RefView, Seq<char>)| pool_spec(verses, d).contains(v) implies verses.contains(v) by {
        if verses.filter(p).len() > 0 {
            verses.lemma_filter_contains_rev(p, v);
        }
    }
}

} // verus!

verus! {

/// The position of the first verse with the given book, chapter and verse number, or -1.
pub open spec fn find_verse(all: Seq<(RefView, Seq<char>)>, book: Seq<char>, chapter: u16, verse: u16) -> int
    decreases all.len(),
{
    if all.len() == 0 {
        -1
    } else if all[0].0.book == book && all[0].0.chapter == chapter && all[0].0.verse == verse {
        0
    } else {
        let rest = find_verse(all.drop_first(), book, chapter, verse);
        if rest == -1 { -1 } else { rest + 1 }
    }
}

pub proof fn lemma_find_verse(all: Seq<(RefView, Seq<char>)>, book: Seq<char>, chapter: u16, verse: u16)
    ensures
        -1 <= find_verse(all, book, chapter, verse) < all.len(),
        find_verse(all, book, chapter, verse) != -1 ==> {
            let v = all[find_verse(all, book, chapter, verse)].0;
            v.book == book && v.chapter == chapter && v.verse == verse
        },
    decreases all.len(),
{
    if all.len() > 0 {
        lemma_find_verse(all.drop_first(), book, chapter, verse);
    }
}

/// The text of a passage: the texts of its verses in the listed order, separated by single
/// spaces; `None` when it lists no verse or a verse the chapter does not have.
pub open spec fn passage_text(all: Seq<(RefView, Seq<char>)>, book: Seq<char>, chapter: u16, verses: Seq<u16>) -> Option<Seq<char>>
    decreases verses.len(),
{
    if verses.len() == 0 {
        None
    } else {
        let i = find_verse(all, book, chapter, verses.last());
        if i == -1 {
            None
        } else if verses.len() == 1 {
            Some(all[i].1)
        } else {
            match passage_text(all, book, chapter, verses.drop_last()) {
                Some(t) => Some(t + " "@ + all[i].1),
                None => None,
            }
        }
    }
}

impl Scriptures {
    /// The position of a verse, if the scripture has it.
    fn verse_index(&self, book: &str, chapter: u16, verse: u16) -> (r: Option<usize>)
        ensures
            match r {
                Some(i) => find_verse(self.verse_list(), book@, chapter, verse) == i as int,
                None => find_verse(self.verse_list(), book@, chapter, verse) == -1,
            },
    {
        let ghost all = self.verse_list();
        let mut i: usize = 0;
        assert(all.skip(0) =~= all);
        while i < self.verses.len()
            invariant
                i <= self.verses.len(),
                all == self.verse_list(),
                find_verse(all.skip(i as int), book@, chapter, verse) == -1 ==> find_verse(all, book@, chapter, verse) == -1,
                find_verse(all.skip(i as int), book@, chapter, verse) != -1 ==> find_verse(all, book@, chapter, verse)
                    == find_verse(all.skip(i as int), book@, chapter, verse) + i,
            decreases self.verses.len() - i,
        {
            let ghost rest = all.skip(i as int);
            assert(rest[0] == self.verses@[i as int]@);
            assert(rest.drop_first() =~= all.skip(i + 1));
            proof {
                lemma_find_verse(rest.drop_first(), book@, chapter, verse);
            }
            let v = &self.verses[i].reference;
            if v.chapter == chapter && v.verse == verse && str_equal(v.book.as_str(), book) {
                return Some(i);
            }
            i = i + 1;
        }
        None
    }

    /// Whether the chapter has every listed verse.
    pub fn contains_passage(&self, book: &str, chapter: u16, verses: &Vec<u16>) -> (r: bool)
        ensures
            r == forall|k: int| 0 <= k < verses@.len() ==> find_verse(self.verse_list(), book@, chapter, #[trigger] verses@[k]) != -1,
    {
        let mut k: usize = 0;
        while k < verses.len()
            invariant
                k <= verses.len(),
                forall|j: int| 0 <= j < k ==> find_verse(self.verse_list(), book@, chapter, #[trigger] verses@[j]) != -1,
            decreases verses.len() - k,
        {
            if self.verse_index(book, chapter, verses[k]).is_none() {
                return false;
            }
            k = k + 1;
        }
        true
    }

    /// A passage as one verse: the first listed verse's reference, with the texts of every
    /// listed verse joined by spaces.
    pub fn passage(&self, book: &str, chapter: u16, verses: &Vec<u16>) -> (r: Option<Verse>)
        ensures
            match r {
                Some(v) => passage_text(self.verse_list(), book@, chapter, verses@) == Some(v.text@)
                    && v.reference.book@ == book@ && v.reference.chapter == chapter && v.reference.verse == verses@[0],
                None => passage_text(self.verse_list(), book@, chapter, verses@) is None,
            },
    {
        if verses.len() == 0 {
            return None;
        }
        let ghost all = self.verse_list();
        let mut text = String::new();
        let mut k: usize = 0;
        let mut canon = Canon::BookOfMormon;
        while k < verses.len()
            invariant
                0 < verses.len(),
                k <= verses.len(),
                all == self.verse_list(),
                k > 0 ==> passage_text(all, book@, chapter, verses@.take(k as int)) == Some(text@),
                k == 0 ==> text@.len() == 0,
            decreases verses.len() - k,
        {
            let index = match self.verse_index(book, chapter, verses[k]) {
                Some(i) => i,
                None => {
                    proof {
                        lemma_passage_text_prefix(all, book@, chapter, verses@, k as int + 1);
                        assert(verses@.take(k + 1).last() == verses@[k as int]);
                    }
                    return None;
                },
            };
            proof {
                lemma_find_verse(all, book@, chapter, verses@[k as int]);
                assert(verses@.take(k + 1).drop_last() =~= verses@.take(k as int));
                assert(verses@.take(k + 1).last() == verses@[k as int]);
                assert(all[index as int] == self.verses@[index as int]@);
            }
            let ghost before = text@;
            if k > 0 {
                text.append(" ");
            } else {
                canon = self.verses[index].reference.canon;
            }
            text.append(self.verses[index].text.as_str());
            proof {
                if k == 0 {
                    assert(before.len() == 0);
                    assert(text@ =~= all[index as int].1);
                } else {
                    assert(text@ =~= before + " "@ + all[index as int].1);
                }
            }
            k = k + 1;
        }
        assert(verses@.take(verses.len() as int) =~= verses@);
        Some(Verse {
            reference: Reference { canon, book: String::from_str(book), chapter, verse: verses[0] },
            text,
        })
    }
}

/// A passage that lists at least one verse, each of which the chapter has, has a text.
pub proof fn lemma_passage_text_found(all: Seq<(RefView, Seq<char>)>, book: Seq<char>, chapter: u16, verses: Seq<u16>)
    requires
        verses.len() > 0,
        forall|k: int| 0 <= k < verses.len() ==> find_verse(all, book, chapter, #[trigger] verses[k]) != -1,
    ensures
        passage_text(all, book, chapter, verses) is Some,
    decreases verses.len(),
{
    assert(find_verse(all, book, chapter, verses[verses.len() - 1]) != -1);
    if verses.len() > 1 {
        let d = verses.drop_last();
        assert forall|k: int| 0 <= k < d.len() implies find_verse(all, book, chapter, #[trigger] d[k]) != -1 by {
            assert(d[k] == verses[k]);
        }
        lemma_passage_text_found(all, book, chapter, d);
    }
}

/// A passage's text is missing whenever one of its first `k` verses is missing.
proof fn lemma_passage_text_prefix(all: Seq<(RefView, Seq<char>)>, book: Seq<char>, chapter: u16, verses: Seq<u16>, k: int)
    requires
        0 < k <= verses.len(),
        passage_text(all, book, chapter, verses.take(k)) is None,
    ensures
        passage_text(all, book, chapter, verses) is None,
    decreases verses.len() - k,
{
    if k < verses.len() {
        assert(verses.drop_last().take(k) =~= verses.take(k));
        lemma_passage_text_prefix(all, book, chapter, verses.drop_last(), k);
    } else {
        assert(verses.take(k) =~= verses);
    }
}


/// Filtering before a second filter never keeps more than the second filter alone.
proof fn lemma_filter_twice_len<A>(s: Seq<A>, p: spec_fn(A) -> bool, q: spec_fn(A) -> bool)
    ensures
        s.filter(p).filter(q).len() <= s.filter(q).len(),
    decreases s.len(),
{
    reveal(Seq::filter);
    if s.len() > 0 {
        lemma_filter_twice_len(s.drop_last(), p, q);
        let t = s.drop_last().filter(p);
        if p(s.last()) {
            assert(s.filter(p) == t.push(s.last()));
            assert(t.push(s.last()).drop_last() =~= t);
        } else {
            assert(s.filter(p) == t);
        }
    }
}

/// In a scripture indexed for its canon, the playable verses of any difficulty within a
/// selection of books never outnumber all verses within that selection.
pub proof fn lemma_playable_within_total(s: Scriptures, canon: Canon, d: Difficulty, sel: BookSelection)
    requires
        indexed(s, canon),
    ensures
        verses_in_selection(s.pool_view(d), sel).len() <= verses_in_selection(s.verse_list(), sel).len(),
{
    let verses = s.verse_list();
    let p = |v: (RefView, Seq<char>)| playable_spec(v.1, d);
    let q = |v: (RefView, Seq<char>)| sel.includes(v.0.book);
    assert(s.pool_view(d) == pool_spec(verses, d));
    if verses.filter(p).len() != 0 {
        lemma_filter_twice_len(verses, p, q);
    }
}


/// How many chapters one scope entry contributes: its selected chapters when its canon is
/// loaded, none otherwise.
pub open spec fn entry_chapter_count(lib: ScriptureLibrary, entry: (Canon, BookSelection)) -> nat {
    match lib.lookup(entry.0) {
        None => 0nat,
        Some(s) => scoped_order(s, entry.1).len(),
    }
}

proof fn lemma_chapter_total_push(lib: ScriptureLibrary, a: Seq<(Canon, BookSelection)>, x: (Canon, BookSelection))
    ensures
        scope_chapter_total(lib, a.push(x)) == scope_chapter_total(lib, a) + entry_chapter_count(lib, x),
    decreases a.len(),
{
    let ax = a.push(x);
    if a.len() > 0 {
        assert(ax.drop_first() =~= a.drop_first().push(x));
        assert(ax[0] == a[0]);
        lemma_chapter_total_push(lib, a.drop_first(), x);
    } else {
        assert(ax.drop_first() =~= Seq::<(Canon, BookSelection)>::empty());
        assert(ax[0] == x);
        assert(scope_chapter_total(lib, ax.drop_first()) == 0);
        assert(scope_chapter_total(lib, a) == 0);
    }
}

proof fn lemma_chapter_total_prefix(lib: ScriptureLibrary, s: Seq<(Canon, BookSelection)>, m: int, n: int)
    requires
        0 <= m <= n <= s.len(),
    ensures
        scope_chapter_total(lib, s.take(m)) <= scope_chapter_total(lib, s.take(n)),
    decreases n - m,
{
    if m < n {
        lemma_chapter_total_prefix(lib, s, m, n - 1);
        assert(s.take(n) =~= s.take(n - 1).push(s[n - 1]));
        lemma_chapter_total_push(lib, s.take(n - 1), s[n - 1]);
    }
}

/// Whether a chapter stands at position `p` by way of entry `k` of a scope: entry `k` is the
/// first for the chapter's canon, every entry before it has its canon loaded, and `p` is the
/// number of selected chapters of those earlier entries plus the chapter's own place among
/// the selected chapters of its canon.
pub open spec fn placed_at(
    lib: ScriptureLibrary,
    scope: Seq<(Canon, BookSelection)>,
    canon: Canon,
    book: Seq<char>,
    chapter: u16,
    p: int,
    k: int,
) -> bool {
    let before = scope_chapter_total(lib, scope.take(k));
    &&& 0 <= k < scope.len()
    &&& scope[k].0 == canon
    &&& lib.lookup(canon) is Some
    &&& forall|j: int| 0 <= j < k ==> scope[j].0 != canon && (#[trigger] lib.lookup(scope[j].0)) is Some
    &&& before <= p
    &&& p - before < scoped_order(lib.lookup(canon)->Some_0, scope[k].1).len()
    &&& scoped_order(lib.lookup(canon)->Some_0, scope[k].1)[p - before] == (book, chapter)
}

/// Where a chapter is placed in a scope's flattened order: after all selected chapters of the
/// (loaded) canons listed before its own, at its place among its canon's selected chapters.
pub proof fn lemma_chapter_position_place(
    lib: ScriptureLibrary,
    scope: Seq<(Canon, BookSelection)>,
    canon: Canon,
    book: Seq<char>,
    chapter: u16,
)
    ensures
        chapter_position(lib, scope, canon, book, chapter) matches Some(p)
            ==> exists|k: int| #[trigger] placed_at(lib, scope, canon, book, chapter, p, k),
    decreases scope.len(),
{
    if scope.len() > 0 {
        match lib.lookup(scope[0].0) {
            None => {},
            Some(s) => {
                let order = scoped_order(s, scope[0].1);
                if scope[0].0 == canon {
                    order.index_of_first_ensures((book, chapter));
                    assert(scope.take(0) =~= Seq::<(Canon, BookSelection)>::empty());
                    if let Some(p) = chapter_position(lib, scope, canon, book, chapter) {
                        assert(placed_at(lib, scope, canon, book, chapter, p, 0));
                    }
                } else {
                    let rest = scope.drop_first();
                    lemma_chapter_position_place(lib, rest, canon, book, chapter);
                    if let Some(p) = chapter_position(lib, scope, canon, book, chapter) {
                        let i = chapter_position(lib, rest, canon, book, chapter)->Some_0;
                        assert(p == i + order.len());
                        let k0 = choose|k: int| #[trigger] placed_at(lib, rest, canon, book, chapter, i, k);
                        let k = k0 + 1;
                        assert(scope.take(k).drop_first() =~= rest.take(k0));
                        assert(scope.take(k)[0] == scope[0]);
                        assert(scope_chapter_total(lib, scope.take(k)) == scope_chapter_total(lib, rest.take(k0)) + order.len());
                        assert(scope[k] == rest[k0]);
                        assert forall|j: int| 0 <= j < k implies scope[j].0 != canon && (#[trigger] lib.lookup(scope[j].0)) is Some by {
                            if j > 0 {
                                assert(scope[j] == rest[j - 1]);
                            }
                        }
                        assert(placed_at(lib, scope, canon, book, chapter, p, k));
                    }
                }
            },
        }
    }
}

/// Two chapters placed at the same position of a scope are the same chapter of the same
/// canon, and every placed chapter lies before the scope's chapter total.
pub proof fn lemma_chapter_position_distinct(
    lib: ScriptureLibrary,
    scope: Seq<(Canon, BookSelection)>,
    c1: Canon,
    b1: Seq<char>,
    ch1: u16,
    c2: Canon,
    b2: Seq<char>,
    ch2: u16,
)
    ensures
        chapter_position(lib, scope, c1, b1, ch1) matches Some(p) ==> 0 <= p < scope_chapter_total(lib, scope),
        (chapter_position(lib, scope, c1, b1, ch1) is Some
            && chapter_position(lib, scope, c1, b1, ch1) == chapter_position(lib, scope, c2, b2, ch2))
            ==> c1 == c2 && b1 == b2 && ch1 == ch2,
{
    lemma_chapter_position_place(lib, scope, c1, b1, ch1);
    lemma_chapter_position_place(lib, scope, c2, b2, ch2);
    if let Some(p) = chapter_position(lib, scope, c1, b1, ch1) {
        let k1 = choose|k: int| #[trigger] placed_at(lib, scope, c1, b1, ch1, p, k);
        assert(scope.take(k1 + 1) =~= scope.take(k1).push(scope[k1]));
        lemma_chapter_total_push(lib, scope.take(k1), scope[k1]);
        lemma_chapter_total_prefix(lib, scope, k1 + 1, scope.len() as int);
        assert(scope.take(scope.len() as int) =~= scope);
        if chapter_position(lib, scope, c2, b2, ch2) == Some(p) {
            let k2 = choose|k: int| #[trigger] placed_at(lib, scope, c2, b2, ch2, p, k);
            assert(scope.take(k2 + 1) =~= scope.take(k2).push(scope[k2]));
            lemma_chapter_total_push(lib, scope.take(k2), scope[k2]);
            if k1 < k2 {
                assert(lib.lookup(scope[k1].0) is Some);
                lemma_chapter_total_prefix(lib, scope, k1 + 1, k2);
            } else if k2 < k1 {
                assert(lib.lookup(scope[k2].0) is Some);
                lemma_chapter_total_prefix(lib, scope, k2 + 1, k1);
            }
        }
    }
}

/// A guess scores a chapter distance of zero only when it names the answer's own chapter,
/// in a scope whose chapters can be counted in a `u32`.
pub proof fn lemma_zero_distance_is_exact(
    lib: ScriptureLibrary,
    scope: Seq<(Canon, BookSelection)>,
    answer: RefView,
    guess_canon: Canon,
    guess_book: Seq<char>,
    guess_chapter: u16,
)
    requires
        scope_chapter_total(lib, scope) <= u32::MAX,
    ensures
        score_spec(lib, scope, answer, guess_canon, guess_book, guess_chapter).chapter_distance == 0
            ==> guess_canon == answer.canon && guess_book == answer.book && guess_chapter == answer.chapter,
{
    lemma_chapter_position_distinct(lib, scope, answer.canon, answer.book, answer.chapter, guess_canon, guess_book, guess_chapter);
    lemma_chapter_position_distinct(lib, scope, guess_canon, guess_book, guess_chapter, answer.canon, answer.book, answer.chapter);
}


/// Whether a verse is playable reads its text only through its words and its lowercase form:
/// filler phrases are found whatever their case, so two texts with the same lowercase form
/// and the same words are playable alike.
pub proof fn lemma_playable_reads_lowercase(t1: Seq<char>, t2: Seq<char>, d: Difficulty)
    requires
        lowercase(t1) == lowercase(t2),
        normalized_words_spec(t1) == normalized_words_spec(t2),
    ensures
        playable_spec(t1, d) == playable_spec(t2, d),
{
}

} // verus!
