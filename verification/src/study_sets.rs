use vstd::prelude::*;

use crate::scriptures::{
    canon_order, copy_strings, game_mode_scope, scope_includes_book, scope_position, scope_selection,
    strings_contain, strings_view,
    BookScope, BookSelection, Canon, CanonScope, GameMode, GameScope, RefView, Reference,
};
use crate::text::{chars_of, decimal, push_char, u64_to_decimal};

verus! {

/// A passage: a set of verses of one chapter.
pub struct PassageView {
    pub canon: Canon,
    pub book: Seq<char>,
    pub chapter: u16,
    pub verses: Seq<u16>,
}

#[derive(Clone, Debug, PartialEq, Eq)]
pub struct StudyPassage {
    pub canon: Canon,
    pub book: String,
    pub chapter: u16,
    pub verses: Vec<u16>,
}

impl View for StudyPassage {
    type V = PassageView;

    open spec fn view(&self) -> PassageView {
        PassageView { canon: self.canon, book: self.book@, chapter: self.chapter, verses: self.verses@ }
    }
}

pub open spec fn passages_view(v: Seq<StudyPassage>) -> Seq<PassageView> {
    v.map_values(|p: StudyPassage| p@)
}

/// Inserts `x` into a strictly increasing sequence, keeping it strictly increasing.
pub open spec fn insert_sorted(u: Seq<u16>, x: u16) -> Seq<u16>
    decreases u.len(),
{
    if u.len() == 0 {
        seq![x]
    } else if x < u[0] {
        seq![x] + u
    } else if x == u[0] {
        u
    } else {
        seq![u[0]] + insert_sorted(u.drop_first(), x)
    }
}

/// The distinct values of `v` in increasing order.
pub open spec fn sort_unique(v: Seq<u16>) -> Seq<u16>
    decreases v.len(),
{
    if v.len() == 0 {
        Seq::empty()
    } else {
        insert_sorted(sort_unique(v.drop_last()), v.last())
    }
}

pub open spec fn strictly_increasing(u: Seq<u16>) -> bool {
    forall|i: int, j: int| 0 <= i < j < u.len() ==> u[i] < u[j]
}

/// Where the run of consecutive values starting at `i` ends.
pub open spec fn run_end(u: Seq<u16>, i: int) -> int
    decreases u.len() - i,
{
    if 0 <= i && i + 1 < u.len() && u[i + 1] == u[i] + 1 {
        run_end(u, i + 1)
    } else {
        i
    }
}

/// A run of verses as text: `7` or `3-5`.
pub open spec fn run_text(start: u16, end: u16) -> Seq<char> {
    if start == end {
        decimal(start as nat)
    } else {
        decimal(start as nat) + "-"@ + decimal(end as nat)
    }
}

/// The texts of the runs of consecutive values from position `i` on.
pub open spec fn runs_from(u: Seq<u16>, i: int) -> Seq<Seq<char>>
    decreases u.len() - i, 1int,
{
    if i < 0 || i >= u.len() {
        Seq::empty()
    } else {
        let j = run_end(u, i);
        if j < i || j >= u.len() {
            Seq::empty()
        } else {
            seq![run_text(u[i], u[j])] + runs_from(u, j + 1)
        }
    }
}

/// Texts joined with `, `.
pub open spec fn join_comma(parts: Seq<Seq<char>>) -> Seq<char>
    decreases parts.len(),
{
    if parts.len() == 0 {
        Seq::empty()
    } else if parts.len() == 1 {
        parts[0]
    } else {
        join_comma(parts.drop_last()) + ", "@ + parts.last()
    }
}

/// Verse numbers in compact form: distinct values in increasing order, consecutive runs
/// written as ranges, joined with `, ` (as in `36, 41-42`).
pub open spec fn compact_verses_spec(verses: Seq<u16>) -> Seq<char> {
    join_comma(runs_from(sort_unique(verses), 0))
}

/// How a passage is labelled: `<book> <chapter>:<verses>`.
pub open spec fn passage_label_spec(p: PassageView) -> Seq<char> {
    p.book + " "@ + decimal(p.chapter as nat) + ":"@ + compact_verses_spec(p.verses)
}

proof fn lemma_insert_sorted(u: Seq<u16>, x: u16)
    requires
        strictly_increasing(u),
    ensures
        strictly_increasing(insert_sorted(u, x)),
        insert_sorted(u, x).to_set() == u.to_set().insert(x),
        forall|k: int| 0 <= k < insert_sorted(u, x).len() ==> (insert_sorted(u, x)[k] == x || u.contains(#[trigger] insert_sorted(u, x)[k])),
    decreases u.len(),
{
    broadcast use vstd::seq_lib::group_seq_properties;
    if u.len() == 0 {
        assert(seq![x].to_set() =~= Set::empty().insert(x)) by {
            assert(seq![x].contains(x));
        }
        assert(u.to_set() =~= Set::<u16>::empty());
    } else if x < u[0] {
        let r = seq![x] + u;
        assert(r.to_set() =~= u.to_set().insert(x)) by {
            assert forall|y: u16| r.contains(y) <==> (u.contains(y) || y == x) by {
                if u.contains(y) {
                    let k = choose|k: int| 0 <= k < u.len() && u[k] == y;
                    assert(r[k + 1] == y);
                }
                if r.contains(y) {
                    let k = choose|k: int| 0 <= k < r.len() && r[k] == y;
                    if k > 0 {
                        assert(u[k - 1] == y);
                    }
                }
            }
        }
    } else if x == u[0] {
        assert(u.to_set() =~= u.to_set().insert(x)) by {
            assert(u.contains(x));
        }
    } else {
        let t = u.drop_first();
        assert(strictly_increasing(t));
        lemma_insert_sorted(t, x);
        let it = insert_sorted(t, x);
        let r = seq![u[0]] + it;
        assert forall|k: int| 0 <= k < it.len() implies u[0] < #[trigger] it[k] by {
            if it[k] != x {
                let m = choose|m: int| 0 <= m < t.len() && t[m] == it[k];
                assert(t[m] == u[m + 1]);
            }
        }
        assert(strictly_increasing(r)) by {
            assert forall|i: int, j: int| 0 <= i < j < r.len() implies r[i] < r[j] by {
                if i == 0 {
                    assert(r[j] == it[j - 1]);
                } else {
                    assert(r[i] == it[i - 1]);
                    assert(r[j] == it[j - 1]);
                }
            }
        }
        assert(r.to_set() =~= u.to_set().insert(x)) by {
            assert forall|y: u16| r.contains(y) <==> (u.contains(y) || y == x) by {
                if u.contains(y) {
                    let k = choose|k: int| 0 <= k < u.len() && u[k] == y;
                    if k == 0 {
                        assert(r[0] == y);
                    } else {
                        assert(t[k - 1] == y);
                        assert(t.contains(y));
                        assert(it.to_set().contains(y));
                        let m = choose|m: int| 0 <= m < it.len() && it[m] == y;
                        assert(r[m + 1] == y);
                    }
                }
                if y == x {
                    assert(it.to_set().contains(x));
                    let m = choose|m: int| 0 <= m < it.len() && it[m] == x;
                    assert(r[m + 1] == x);
                }
                if r.contains(y) {
                    let k = choose|k: int| 0 <= k < r.len() && r[k] == y;
                    if k == 0 {
                        assert(u[0] == y);
                    } else {
                        assert(it[k - 1] == y);
                        assert(it.contains(y));
                        assert(it.to_set().contains(y));
                        if y != x {
                            assert(t.contains(y));
                            let m = choose|m: int| 0 <= m < t.len() && t[m] == y;
                            assert(u[m + 1] == y);
                        }
                    }
                }
            }
        }
        assert forall|k: int| 0 <= k < r.len() implies (r[k] == x || u.contains(#[trigger] r[k])) by {
            if k == 0 {
                assert(u[0] == r[0]);
            } else {
                assert(r[k] == it[k - 1]);
                if it[k - 1] != x {
                    let m = choose|m: int| 0 <= m < t.len() && t[m] == it[k - 1];
                    assert(u[m + 1] == r[k]);
                }
            }
        }
    }
}

/// The distinct values come out in increasing order, and no value is gained or lost.
pub proof fn lemma_sort_unique(v: Seq<u16>)
    ensures
        strictly_increasing(sort_unique(v)),
        sort_unique(v).to_set() == v.to_set(),
    decreases v.len(),
{
    broadcast use vstd::seq_lib::group_seq_properties;
    if v.len() == 0 {
        assert(v.to_set() =~= Set::<u16>::empty());
        assert(sort_unique(v).to_set() =~= Set::<u16>::empty());
    } else {
        lemma_sort_unique(v.drop_last());
        lemma_insert_sorted(sort_unique(v.drop_last()), v.last());
        assert(v =~= v.drop_last().push(v.last()));
        v.drop_last().lemma_push_to_set_commute(v.last());
    }
}

/// Inserts `x` at its place in a strictly increasing vector, unless it is already there.
fn insert_sorted_vec(u: &mut Vec<u16>, x: u16)
    requires
        strictly_increasing(old(u)@),
    ensures
        final(u)@ == insert_sorted(old(u)@, x),
{
    let ghost orig = u@;
    assert(orig.skip(0) =~= orig);
    assert(orig.take(0) + insert_sorted(orig, x) =~= insert_sorted(orig, x));
    let mut p: usize = 0;
    while p < u.len() && u[p] < x
        invariant
            u@ == orig,
            p <= u.len(),
            strictly_increasing(orig),
            insert_sorted(orig, x) == orig.take(p as int) + insert_sorted(orig.skip(p as int), x),
        decreases u.len() - p,
    {
        proof {
            let rest = orig.skip(p as int);
            assert(rest[0] == orig[p as int]);
            assert(rest.drop_first() =~= orig.skip(p + 1));
            assert(orig.take(p + 1) =~= orig.take(p as int).push(orig[p as int]));
            assert(insert_sorted(rest, x) == seq![rest[0]] + insert_sorted(rest.drop_first(), x));
            assert(orig.take(p as int) + (seq![orig[p as int]] + insert_sorted(orig.skip(p + 1), x))
                =~= orig.take(p + 1) + insert_sorted(orig.skip(p + 1), x));
        }
        p = p + 1;
    }
    let ghost rest = orig.skip(p as int);
    if p < u.len() && u[p] == x {
        assert(insert_sorted(rest, x) == rest);
        assert(orig.take(p as int) + rest =~= orig);
        return;
    }
    u.insert(p, x);
    proof {
        if p < orig.len() {
            assert(rest[0] == orig[p as int]);
            assert(insert_sorted(rest, x) == seq![x] + rest);
        } else {
            assert(rest.len() == 0);
        }
        assert(u@ =~= orig.take(p as int) + (seq![x] + rest));
    }
}

fn sort_unique_vec(v: &Vec<u16>) -> (r: Vec<u16>)
    ensures
        r@ == sort_unique(v@),
{
    let mut r: Vec<u16> = Vec::new();
    let mut i: usize = 0;
    while i < v.len()
        invariant
            i <= v.len(),
            r@ == sort_unique(v@.take(i as int)),
        decreases v.len() - i,
    {
        proof {
            lemma_sort_unique(v@.take(i as int));
            assert(v@.take(i + 1).drop_last() =~= v@.take(i as int));
            assert(v@.take(i + 1).last() == v@[i as int]);
        }
        insert_sorted_vec(&mut r, v[i]);
        i = i + 1;
    }
    assert(v@.take(v.len() as int) =~= v@);
    r
}

proof fn lemma_run_end(u: Seq<u16>, i: int)
    requires
        0 <= i < u.len(),
    ensures
        i <= run_end(u, i) < u.len(),
    decreases u.len() - i,
{
    if i + 1 < u.len() && u[i + 1] == u[i] + 1 {
        lemma_run_end(u, i + 1);
    }
}

/// The verses of a passage in compact form.
fn compact_verses(verses: &Vec<u16>) -> (r: String)
    ensures
        r@ == compact_verses_spec(verses@),
{
    let u = sort_unique_vec(verses);
    proof {
        lemma_sort_unique(verses@);
    }
    let mut text = String::new();
    let ghost mut parts: Seq<Seq<char>> = Seq::empty();
    let mut index: usize = 0;
    assert(runs_from(u@, 0) == parts + runs_from(u@, 0));
    while index < u.len()
        invariant
            index <= u.len(),
            u@ == sort_unique(verses@),
            strictly_increasing(u@),
            text@ == join_comma(parts),
            runs_from(u@, 0) == parts + runs_from(u@, index as int),
            index == 0 <==> parts.len() == 0,
        decreases u.len() - index,
    {
        let start = u[index];
        let mut end = start;
        let run_start = index;
        let ghost first = index as int;
        while index + 1 < u.len() && u[index + 1] == end + 1
            invariant
                0 <= first <= index < u.len(),
                strictly_increasing(u@),
                start == u@[first],
                end == u@[index as int],
                run_end(u@, first) == run_end(u@, index as int),
            decreases u.len() - index,
        {
            index = index + 1;
            end = u[index];
        }
        proof {
            lemma_run_end(u@, first);
            assert(run_end(u@, index as int) == index);
        }
        let part = if start == end {
            u64_to_decimal(start as u64)
        } else {
            let mut p = u64_to_decimal(start as u64);
            p.append("-");
            let e = u64_to_decimal(end as u64);
            p.append(e.as_str());
            p
        };
        assert(part@ == run_text(u@[first], u@[index as int]));
        if run_start > 0 {
            text.append(", ");
        }
        text.append(part.as_str());
        proof {
            let old_parts = parts;
            parts = parts.push(part@);
            assert(parts.drop_last() =~= old_parts);
            assert(runs_from(u@, first) == seq![run_text(u@[first], u@[index as int])] + runs_from(u@, index + 1));
            assert(old_parts + runs_from(u@, first) =~= parts + runs_from(u@, index + 1));
        }
        index = index + 1;
    }
    assert(runs_from(u@, index as int) == Seq::<Seq<char>>::empty());
    assert(parts + Seq::<Seq<char>>::empty() =~= parts);
    text
}

impl StudyPassage {
    pub fn single(reference: &Reference) -> (r: Self)
        ensures
            r@ == (PassageView { canon: reference.canon, book: reference.book@, chapter: reference.chapter, verses: seq![reference.verse] }),
    {
        let r = StudyPassage {
            canon: reference.canon,
            book: reference.book.clone(),
            chapter: reference.chapter,
            verses: vec![reference.verse],
        };
        assert(r.verses@ =~= seq![reference.verse]);
        r
    }

    pub fn label(&self) -> (r: String)
        ensures
            r@ == passage_label_spec(self@),
    {
        let verses = compact_verses(&self.verses);
        let mut r = self.book.clone();
        r.append(" ");
        let chapter = u64_to_decimal(self.chapter as u64);
        r.append(chapter.as_str());
        r.append(":");
        r.append(verses.as_str());
        r
    }

    pub fn first_reference(&self) -> (r: Option<Reference>)
        ensures
            match r {
                Some(reference) => self.verses@.len() > 0 && reference@ == (RefView {
                    canon: self.canon,
                    book: self.book@,
                    chapter: self.chapter,
                    verse: self.verses@[0],
                }),
                None => self.verses@.len() == 0,
            },
    {
        if self.verses.len() == 0 {
            return None;
        }
        Some(Reference { canon: self.canon, book: self.book.clone(), chapter: self.chapter, verse: self.verses[0] })
    }

    pub fn contains_verse(&self, verse: u16) -> (r: bool)
        ensures
            r == self.verses@.contains(verse),
    {
        let mut i: usize = 0;
        while i < self.verses.len()
            invariant
                i <= self.verses.len(),
                forall|j: int| 0 <= j < i ==> self.verses@[j] != verse,
            decreases self.verses.len() - i,
        {
            if self.verses[i] == verse {
                return true;
            }
            i = i + 1;
        }
        false
    }

    /// A copy of this passage.
    pub fn copy(&self) -> (r: StudyPassage)
        ensures
            r@ == self@,
    {
        StudyPassage {
            canon: self.canon,
            book: self.book.clone(),
            chapter: self.chapter,
            verses: crate::scriptures::copy_u16s(&self.verses),
        }
    }

    /// Whether two passages name the same verses of the same chapter, in the same order.
    pub fn same_as(&self, other: &StudyPassage) -> (r: bool)
        ensures
            r == (self@ == other@),
    {
        if self.canon != other.canon || self.chapter != other.chapter || self.book != other.book {
            return false;
        }
        if self.verses.len() != other.verses.len() {
            assert(self@.verses.len() != other@.verses.len());
            return false;
        }
        let mut i: usize = 0;
        while i < self.verses.len()
            invariant
                i <= self.verses.len() == other.verses.len(),
                forall|j: int| 0 <= j < i ==> self.verses@[j] == other.verses@[j],
            decreases self.verses.len() - i,
        {
            if self.verses[i] != other.verses[i] {
                return false;
            }
            i = i + 1;
        }
        assert(self.verses@ =~= other.verses@);
        true
    }
}

/// A copy of a list of passages.
pub fn copy_passages(v: &Vec<StudyPassage>) -> (r: Vec<StudyPassage>)
    ensures
        passages_view(r@) == passages_view(v@),
{
    let mut r: Vec<StudyPassage> = Vec::new();
    let mut i: usize = 0;
    while i < v.len()
        invariant
            i <= v.len(),
            passages_view(r@) == passages_view(v@).take(i as int),
        decreases v.len() - i,
    {
        let ghost before = passages_view(r@);
        let p = v[i].copy();
        r.push(p);
        assert(passages_view(r@) =~= before.push(v@[i as int]@));
        assert(passages_view(v@).take(i + 1) =~= passages_view(v@).take(i as int).push(v@[i as int]@));
        i = i + 1;
    }
    assert(passages_view(v@).take(v.len() as int) =~= passages_view(v@));
    r
}

/// Whether `p` is one of `ps`.
pub fn passages_contain(ps: &Vec<StudyPassage>, p: &StudyPassage) -> (r: bool)
    ensures
        r == passages_view(ps@).contains(p@),
{
    let mut i: usize = 0;
    while i < ps.len()
        invariant
            i <= ps.len(),
            forall|j: int| 0 <= j < i ==> ps@[j]@ != p@,
        decreases ps.len() - i,
    {
        if ps[i].same_as(p) {
            assert(passages_view(ps@)[i as int] == p@);
            return true;
        }
        i = i + 1;
    }
    assert(!passages_view(ps@).contains(p@)) by {
        if passages_view(ps@).contains(p@) {
            let k = choose|k: int| 0 <= k < passages_view(ps@).len() && passages_view(ps@)[k] == p@;
            assert(ps@[k]@ == p@);
        }
    }
    false
}

} // verus!

verus! {

/// The distinct books of the passages of `canon`, in order of first appearance.
pub open spec fn canon_books(ps: Seq<PassageView>, canon: Canon) -> Seq<Seq<char>>
    decreases ps.len(),
{
    if ps.len() == 0 {
        Seq::empty()
    } else {
        let before = canon_books(ps.drop_last(), canon);
        let p = ps.last();
        if p.canon == canon && !before.contains(p.book) {
            before.push(p.book)
        } else {
            before
        }
    }
}

/// For each of `canons` that some passage belongs to, the books of the passages in it.
pub open spec fn books_scope_from(canons: Seq<Canon>, ps: Seq<PassageView>) -> Seq<(Canon, BookSelection)>
    decreases canons.len(),
{
    if canons.len() == 0 {
        Seq::empty()
    } else {
        let before = books_scope_from(canons.drop_last(), ps);
        let books = canon_books(ps, canons.last());
        if books.len() > 0 {
            before.push((canons.last(), BookSelection::Selected(books)))
        } else {
            before
        }
    }
}

/// Whether some passage belongs to `canon`.
pub open spec fn has_canon(ps: Seq<PassageView>, canon: Canon) -> bool {
    exists|i: int| 0 <= i < ps.len() && (#[trigger] ps[i]).canon == canon
}

/// Each of `canons` that some passage belongs to, with every book.
pub open spec fn full_canons_from(canons: Seq<Canon>, ps: Seq<PassageView>) -> Seq<(Canon, BookSelection)>
    decreases canons.len(),
{
    if canons.len() == 0 {
        Seq::empty()
    } else {
        let before = full_canons_from(canons.drop_last(), ps);
        if has_canon(ps, canons.last()) {
            before.push((canons.last(), BookSelection::All))
        } else {
            before
        }
    }
}

/// Where a canon's first entry stands once an entry is added at the end.
proof fn lemma_scope_position_push(scope: Seq<(Canon, BookSelection)>, x: (Canon, BookSelection), c: Canon)
    ensures
        scope_position(scope, c) != -1 ==> scope_position(scope.push(x), c) == scope_position(scope, c),
        scope_position(scope, c) == -1 && x.0 == c ==> scope_position(scope.push(x), c) == scope.len(),
        scope_position(scope, c) == -1 && x.0 != c ==> scope_position(scope.push(x), c) == -1,
    decreases scope.len(),
{
    let pushed = scope.push(x);
    if scope.len() == 0 {
        assert(pushed[0] == x);
        assert(pushed.drop_first() =~= Seq::<(Canon, BookSelection)>::empty());
        assert(scope_position(pushed.drop_first(), c) == -1);
    } else {
        assert(pushed[0] == scope[0]);
        if scope[0].0 != c {
            let rest = scope.drop_first();
            assert(pushed.drop_first() =~= rest.push(x));
            lemma_scope_position_push(rest, x, c);
            crate::scriptures::lemma_scope_position(rest, c);
        }
    }
}

/// A canon's books list the book of every passage of that canon.
proof fn lemma_canon_books_cover(ps: Seq<PassageView>, canon: Canon)
    ensures
        forall|i: int| 0 <= i < ps.len() && (#[trigger] ps[i]).canon == canon ==> canon_books(ps, canon).contains(ps[i].book),
    decreases ps.len(),
{
    if ps.len() > 0 {
        let init = ps.drop_last();
        lemma_canon_books_cover(init, canon);
        let before = canon_books(init, canon);
        assert forall|i: int| 0 <= i < ps.len() && (#[trigger] ps[i]).canon == canon implies canon_books(ps, canon).contains(ps[i].book) by {
            if i < init.len() {
                assert(init[i] == ps[i]);
                assert(before.contains(ps[i].book));
                let j = choose|j: int| 0 <= j < before.len() && before[j] == ps[i].book;
                assert(canon_books(ps, canon) == before || canon_books(ps, canon) == before.push(ps.last().book));
                assert(canon_books(ps, canon)[j] == ps[i].book);
            } else {
                if !before.contains(ps.last().book) {
                    assert(canon_books(ps, canon).last() == ps[i].book);
                }
            }
        }
    }
}

/// In the books scope made from canons listed once each, a canon with passages is selected
/// with exactly its passages' books; a canon not listed has no entry.
proof fn lemma_books_scope_selection(canons: Seq<Canon>, ps: Seq<PassageView>, c: Canon)
    requires
        canons.no_duplicates(),
    ensures
        !canons.contains(c) ==> scope_position(books_scope_from(canons, ps), c) == -1,
        (canons.contains(c) && canon_books(ps, c).len() > 0)
            ==> scope_selection(books_scope_from(canons, ps), c) == Some(BookSelection::Selected(canon_books(ps, c))),
    decreases canons.len(),
{
    if canons.len() > 0 {
        let init = canons.drop_last();
        assert(init.no_duplicates());
        lemma_books_scope_selection(init, ps, c);
        let before = books_scope_from(init, ps);
        let last = canons.last();
        let books = canon_books(ps, last);
        let entry = (last, BookSelection::Selected(books));
        lemma_scope_position_push(before, entry, c);
        crate::scriptures::lemma_scope_position(before, c);
        if books.len() > 0 {
            assert(books_scope_from(canons, ps) == before.push(entry));
            let p = scope_position(before, c);
            if p != -1 {
                assert(before.push(entry)[p] == before[p]);
            } else {
                assert(before.push(entry)[before.len() as int] == entry);
            }
        } else {
            assert(books_scope_from(canons, ps) == before);
        }
        if c == last {
            assert(!init.contains(c)) by {
                if init.contains(c) {
                    let k = choose|k: int| 0 <= k < init.len() && init[k] == c;
                    assert(canons[k] == canons[canons.len() - 1]);
                }
            }
        } else {
            if canons.contains(c) {
                let k = choose|k: int| 0 <= k < canons.len() && canons[k] == c;
                assert(init[k] == c);
            }
            if init.contains(c) {
                let k = choose|k: int| 0 <= k < init.len() && init[k] == c;
                assert(canons[k] == c);
            }
        }
    }
}

/// In the full-canons scope made from canons listed once each, a canon with passages is
/// selected with all its books; a canon not listed has no entry.
proof fn lemma_full_scope_selection(canons: Seq<Canon>, ps: Seq<PassageView>, c: Canon)
    requires
        canons.no_duplicates(),
    ensures
        !canons.contains(c) ==> scope_position(full_canons_from(canons, ps), c) == -1,
        (canons.contains(c) && has_canon(ps, c)) ==> scope_selection(full_canons_from(canons, ps), c) == Some(BookSelection::All),
    decreases canons.len(),
{
    if canons.len() > 0 {
        let init = canons.drop_last();
        assert(init.no_duplicates());
        lemma_full_scope_selection(init, ps, c);
        let before = full_canons_from(init, ps);
        let last = canons.last();
        let entry = (last, BookSelection::All);
        lemma_scope_position_push(before, entry, c);
        crate::scriptures::lemma_scope_position(before, c);
        if has_canon(ps, last) {
            assert(full_canons_from(canons, ps) == before.push(entry));
            let p = scope_position(before, c);
            if p != -1 {
                assert(before.push(entry)[p] == before[p]);
            } else {
                assert(before.push(entry)[before.len() as int] == entry);
            }
        } else {
            assert(full_canons_from(canons, ps) == before);
        }
        if c == last {
            assert(!init.contains(c)) by {
                if init.contains(c) {
                    let k = choose|k: int| 0 <= k < init.len() && init[k] == c;
                    assert(canons[k] == canons[canons.len() - 1]);
                }
            }
        } else {
            if canons.contains(c) {
                let k = choose|k: int| 0 <= k < canons.len() && canons[k] == c;
                assert(init[k] == c);
            }
            if init.contains(c) {
                let k = choose|k: int| 0 <= k < init.len() && init[k] == c;
                assert(canons[k] == c);
            }
        }
    }
}

/// A study set guessed among the books of its passages, among their full canons, or among
/// all standard works can place every one of its passages' books.
pub proof fn lemma_resolved_scope_covers(guess_scope: StudyGuessScope, ps: Seq<PassageView>)
    requires
        !(guess_scope is Custom),
    ensures
        forall|i: int| 0 <= i < ps.len() ==> scope_includes_book(resolved_scope_spec(guess_scope, ps), #[trigger] ps[i].canon, ps[i].book),
{
    let order = canon_order();
    assert(order.no_duplicates());
    assert forall|i: int| 0 <= i < ps.len() implies scope_includes_book(resolved_scope_spec(guess_scope, ps), #[trigger] ps[i].canon, ps[i].book) by {
        let c = ps[i].canon;
        assert(order.contains(c)) by {
            match c {
                Canon::OldTestament => assert(order[0] == c),
                Canon::NewTestament => assert(order[1] == c),
                Canon::BookOfMormon => assert(order[2] == c),
                Canon::DoctrineAndCovenants => assert(order[3] == c),
                Canon::PearlOfGreatPrice => assert(order[4] == c),
            }
        }
        match guess_scope {
            StudyGuessScope::BooksInSet => {
                lemma_canon_books_cover(ps, c);
                assert(canon_books(ps, c).contains(ps[i].book));
                lemma_books_scope_selection(order, ps, c);
            },
            StudyGuessScope::FullCanons => {
                lemma_full_scope_selection(order, ps, c);
            },
            StudyGuessScope::AllStandardWorks => {
                let scope = game_mode_scope(GameMode::AllStandardWorks);
                assert(scope =~= order.map_values(|canon: Canon| (canon, BookSelection::All)));
                let j = choose|j: int| 0 <= j < order.len() && order[j] == c;
                assert(scope[j] == (c, BookSelection::All));
                crate::scriptures::lemma_scope_position(scope, c);
            },
            StudyGuessScope::Custom(_) => {},
        }
    }
}

/// The books of the passages of `canon`, each once, in order of first appearance.
fn books_of_canon(passages: &Vec<StudyPassage>, canon: Canon) -> (r: Vec<String>)
    ensures
        strings_view(r@) == canon_books(passages_view(passages@), canon),
{
    let ghost ps = passages_view(passages@);
    let mut books: Vec<String> = Vec::new();
    let mut i: usize = 0;
    while i < passages.len()
        invariant
            i <= passages.len(),
            ps == passages_view(passages@),
            strings_view(books@) == canon_books(ps.take(i as int), canon),
        decreases passages.len() - i,
    {
        proof {
            assert(ps.take(i + 1).drop_last() =~= ps.take(i as int));
            assert(ps.take(i + 1).last() == passages@[i as int]@);
        }
        let p = &passages[i];
        if p.canon == canon && !strings_contain(&books, p.book.as_str()) {
            let ghost before = strings_view(books@);
            books.push(p.book.clone());
            assert(strings_view(books@) =~= before.push(p.book@));
        }
        i = i + 1;
    }
    assert(ps.take(passages.len() as int) =~= ps);
    books
}

/// The scope made of the books that the passages name, canon by canon in display order.
pub fn scope_for_passages(passages: &Vec<StudyPassage>) -> (r: GameScope)
    ensures
        r@ == books_scope_from(canon_order(), passages_view(passages@)),
{
    let canons = Canon::all();
    let ghost ps = passages_view(passages@);
    let mut scopes: Vec<CanonScope> = Vec::new();
    let mut k: usize = 0;
    while k < 5
        invariant
            k <= 5,
            canons@ == canon_order(),
            ps == passages_view(passages@),
            scopes@.map_values(|c: CanonScope| c@) == books_scope_from(canon_order().take(k as int), ps),
        decreases 5 - k,
    {
        proof {
            assert(canon_order().take(k + 1).drop_last() =~= canon_order().take(k as int));
            assert(canon_order().take(k + 1).last() == canons@[k as int]);
        }
        let canon = canons[k];
        let books = books_of_canon(passages, canon);
        if books.len() > 0 {
            let ghost before = scopes@.map_values(|c: CanonScope| c@);
            let ghost sel = BookSelection::Selected(strings_view(books@));
            scopes.push(CanonScope { canon, books: BookScope::Selected(books) });
            assert(scopes@.map_values(|c: CanonScope| c@) =~= before.push((canon, sel)));
        }
        k = k + 1;
    }
    assert(canon_order().take(5) =~= canon_order());
    GameScope { canons: scopes }
}

fn passages_have_canon(passages: &Vec<StudyPassage>, canon: Canon) -> (r: bool)
    ensures
        r == has_canon(passages_view(passages@), canon),
{
    let mut i: usize = 0;
    while i < passages.len()
        invariant
            i <= passages.len(),
            forall|j: int| 0 <= j < i ==> passages@[j].canon != canon,
        decreases passages.len() - i,
    {
        if passages[i].canon == canon {
            assert(passages_view(passages@)[i as int].canon == canon);
            return true;
        }
        i = i + 1;
    }
    assert(!has_canon(passages_view(passages@), canon)) by {
        if has_canon(passages_view(passages@), canon) {
            let j = choose|j: int| 0 <= j < passages_view(passages@).len() && (#[trigger] passages_view(passages@)[j]).canon == canon;
            assert(passages@[j].canon == canon);
        }
    }
    false
}

/// Every canon that some passage belongs to, in display order, with all its books.
fn full_canons_for_passages(passages: &Vec<StudyPassage>) -> (r: GameScope)
    ensures
        r@ == full_canons_from(canon_order(), passages_view(passages@)),
{
    let canons = Canon::all();
    let ghost ps = passages_view(passages@);
    let mut scopes: Vec<CanonScope> = Vec::new();
    let mut k: usize = 0;
    while k < 5
        invariant
            k <= 5,
            canons@ == canon_order(),
            ps == passages_view(passages@),
            scopes@.map_values(|c: CanonScope| c@) == full_canons_from(canon_order().take(k as int), ps),
        decreases 5 - k,
    {
        proof {
            assert(canon_order().take(k + 1).drop_last() =~= canon_order().take(k as int));
            assert(canon_order().take(k + 1).last() == canons@[k as int]);
        }
        let canon = canons[k];
        if passages_have_canon(passages, canon) {
            let ghost before = scopes@.map_values(|c: CanonScope| c@);
            scopes.push(CanonScope { canon, books: BookScope::All });
            assert(scopes@.map_values(|c: CanonScope| c@) =~= before.push((canon, BookSelection::All)));
        }
        k = k + 1;
    }
    assert(canon_order().take(5) =~= canon_order());
    GameScope { canons: scopes }
}

/// How the verses of a study passage are shown in a round.
#[derive(Clone, Copy, Debug, PartialEq, Eq, Structural)]
pub enum PromptPolicy {
    Automatic,
    SingleVerse,
    WholePassage,
}

impl Default for PromptPolicy {
    fn default() -> (r: Self)
        ensures
            r == PromptPolicy::Automatic,
    {
        PromptPolicy::Automatic
    }
}

pub open spec fn prompt_policy_label(p: PromptPolicy) -> Seq<char> {
    match p {
        PromptPolicy::Automatic => "Automatic"@,
        PromptPolicy::SingleVerse => "One verse"@,
        PromptPolicy::WholePassage => "Whole passage"@,
    }
}

pub open spec fn prompt_policy_description(p: PromptPolicy) -> Seq<char> {
    match p {
        PromptPolicy::Automatic => "Short passages stay together; longer passages use one verse."@,
        PromptPolicy::SingleVerse => "Each round uses one randomly selected verse from its passage."@,
        PromptPolicy::WholePassage => "Each round shows every verse in its passage."@,
    }
}

/// Whether a round shows every verse of the passage: always, never, or (automatically)
/// when the passage has at most three verses.
pub open spec fn shows_whole_passage_spec(policy: PromptPolicy, p: PassageView) -> bool {
    match policy {
        PromptPolicy::Automatic => p.verses.len() <= 3,
        PromptPolicy::SingleVerse => false,
        PromptPolicy::WholePassage => true,
    }
}

impl PromptPolicy {
    pub const ALL: [PromptPolicy; 3] = [PromptPolicy::Automatic, PromptPolicy::SingleVerse, PromptPolicy::WholePassage];

    pub fn label(self) -> (r: &'static str)
        ensures
            r@ == prompt_policy_label(self),
    {
        match self {
            PromptPolicy::Automatic => "Automatic",
            PromptPolicy::SingleVerse => "One verse",
            PromptPolicy::WholePassage => "Whole passage",
        }
    }

    pub fn description(self) -> (r: &'static str)
        ensures
            r@ == prompt_policy_description(self),
    {
        match self {
            PromptPolicy::Automatic => "Short passages stay together; longer passages use one verse.",
            PromptPolicy::SingleVerse => "Each round uses one randomly selected verse from its passage.",
            PromptPolicy::WholePassage => "Each round shows every verse in its passage.",
        }
    }

    pub fn shows_whole_passage(self, passage: &StudyPassage) -> (r: bool)
        ensures
            r == shows_whole_passage_spec(self, passage@),
    {
        match self {
            PromptPolicy::Automatic => passage.verses.len() <= 3,
            PromptPolicy::SingleVerse => false,
            PromptPolicy::WholePassage => true,
        }
    }

    pub fn behavior_label(self, passage: &StudyPassage) -> (r: &'static str)
        ensures
            r@ == if shows_whole_passage_spec(self, passage@) { "Whole passage"@ } else { "Random verse"@ },
    {
        if self.shows_whole_passage(passage) {
            "Whole passage"
        } else {
            "Random verse"
        }
    }
}

/// Where guesses may be placed in a study game.
#[derive(Clone, Debug, PartialEq, Eq)]
pub enum StudyGuessScope {
    BooksInSet,
    FullCanons,
    AllStandardWorks,
    Custom(GameScope),
}

impl Default for StudyGuessScope {
    fn default() -> (r: Self)
        ensures
            r == StudyGuessScope::FullCanons,
    {
        StudyGuessScope::FullCanons
    }
}

pub open spec fn study_guess_scope_label(s: StudyGuessScope) -> Seq<char> {
    match s {
        StudyGuessScope::BooksInSet => "Books in set"@,
        StudyGuessScope::FullCanons => "Full canons"@,
        StudyGuessScope::AllStandardWorks => "All standard works"@,
        StudyGuessScope::Custom(_) => "Custom"@,
    }
}

/// The scope a study set's guesses are placed in.
pub open spec fn resolved_scope_spec(guess_scope: StudyGuessScope, ps: Seq<PassageView>) -> Seq<(Canon, BookSelection)> {
    match guess_scope {
        StudyGuessScope::BooksInSet => books_scope_from(canon_order(), ps),
        StudyGuessScope::FullCanons => full_canons_from(canon_order(), ps),
        StudyGuessScope::AllStandardWorks => game_mode_scope(GameMode::AllStandardWorks),
        StudyGuessScope::Custom(scope) => scope@,
    }
}

impl StudyGuessScope {
    pub fn label(&self) -> (r: &'static str)
        ensures
            r@ == study_guess_scope_label(*self),
    {
        match self {
            StudyGuessScope::BooksInSet => "Books in set",
            StudyGuessScope::FullCanons => "Full canons",
            StudyGuessScope::AllStandardWorks => "All standard works",
            StudyGuessScope::Custom(_) => "Custom",
        }
    }

    /// A copy of this choice; a custom scope is copied entry by entry.
    pub fn copy(&self) -> (r: StudyGuessScope)
        ensures
            match (*self, r) {
                (StudyGuessScope::Custom(a), StudyGuessScope::Custom(b)) => a@ == b@,
                _ => r == *self,
            },
    {
        match self {
            StudyGuessScope::BooksInSet => StudyGuessScope::BooksInSet,
            StudyGuessScope::FullCanons => StudyGuessScope::FullCanons,
            StudyGuessScope::AllStandardWorks => StudyGuessScope::AllStandardWorks,
            StudyGuessScope::Custom(scope) => StudyGuessScope::Custom(scope.copy()),
        }
    }
}

/// A named list of passages to practise.
#[derive(Clone, Debug, PartialEq, Eq)]
pub struct StudySet {
    pub id: String,
    pub name: String,
    pub passages: Vec<StudyPassage>,
    pub guess_scope: StudyGuessScope,
    pub prompt_policy: PromptPolicy,
}

impl StudySet {
    pub fn resolved_guess_scope(&self) -> (r: GameScope)
        ensures
            r@ == resolved_scope_spec(self.guess_scope, passages_view(self.passages@)),
    {
        match &self.guess_scope {
            StudyGuessScope::BooksInSet => scope_for_passages(&self.passages),
            StudyGuessScope::FullCanons => full_canons_for_passages(&self.passages),
            StudyGuessScope::AllStandardWorks => GameMode::AllStandardWorks.scope(),
            StudyGuessScope::Custom(scope) => scope.copy(),
        }
    }

    pub fn guess_scope_covers_passages(&self) -> (r: bool)
        ensures
            r == forall|i: int| 0 <= i < self.passages@.len() ==> scope_includes_book(
                resolved_scope_spec(self.guess_scope, passages_view(self.passages@)),
                #[trigger] self.passages@[i].canon,
                self.passages@[i].book@,
            ),
    {
        let scope = self.resolved_guess_scope();
        let mut i: usize = 0;
        while i < self.passages.len()
            invariant
                i <= self.passages.len(),
                scope@ == resolved_scope_spec(self.guess_scope, passages_view(self.passages@)),
                forall|j: int| 0 <= j < i ==> scope_includes_book(scope@, #[trigger] self.passages@[j].canon, self.passages@[j].book@),
            decreases self.passages.len() - i,
        {
            if !scope.includes_book(self.passages[i].canon, self.passages[i].book.as_str()) {
                return false;
            }
            i = i + 1;
        }
        true
    }
}

/// The study sets a player made.
#[derive(Clone, Debug, PartialEq, Eq)]
pub struct CustomStudySets {
    pub sets: Vec<StudySet>,
}

impl Default for CustomStudySets {
    fn default() -> (r: Self)
        ensures
            r.sets@.len() == 0,
    {
        CustomStudySets { sets: Vec::new() }
    }
}

} // verus!

verus! {

/// A passage lists at least one verse, in increasing order without repeats.
pub open spec fn passage_well_formed(p: PassageView) -> bool {
    p.verses.len() > 0 && strictly_increasing(p.verses)
}

/// The verse numbers `start..=end`.
pub open spec fn verse_range(start: u16, end: u16) -> Seq<u16> {
    Seq::new(if start <= end { (end - start + 1) as nat } else { 0 }, |i: int| (start + i) as u16)
}

/// The passage of `book` `chapter` covering verses `start..=end`.
pub open spec fn range_passage(canon: Canon, book: Seq<char>, chapter: u16, start: u16, end: u16) -> PassageView {
    PassageView { canon, book, chapter, verses: verse_range(start, end) }
}

fn passage(canon: Canon, book: &str, chapter: u16, start: u16, end: u16) -> (r: StudyPassage)
    ensures
        r@ == (PassageView { canon, book: book@, chapter, verses: verse_range(start, end) }),
        start <= end ==> passage_well_formed(r@),
{
    let mut verses: Vec<u16> = Vec::new();
    let mut v: u32 = start as u32;
    while v <= end as u32
        invariant
            start <= v,
            start <= end ==> v <= end as u32 + 1,
            start > end ==> v == start,
            verses@ =~= Seq::new((v - start) as nat, |i: int| (start + i) as u16),
        decreases end as u32 + 1 - v,
    {
        verses.push(v as u16);
        v = v + 1;
    }
    assert(verses@ =~= verse_range(start, end));
    StudyPassage { canon, book: String::from_str(book), chapter, verses }
}

/// Whether the passage editor's fields make a passage that can be added: a book is chosen,
/// the chapter is one of the book's, and `start..=end` is a run of fewer than 200 verses,
/// counted from one, within the chapter's `verse_count` verses.
pub open spec fn passage_draft_valid(book: Seq<char>, chapters: Seq<u16>, chapter: u16, start: u16, end: u16, verse_count: u16) -> bool {
    &&& book.len() > 0
    &&& chapters.contains(chapter)
    &&& start > 0
    &&& end >= start
    &&& end <= verse_count
    &&& end - start < 200
}

/// The passage that the editor's fields describe, when they are valid.
pub fn drafted_passage(
    canon: Canon,
    book: &str,
    chapters: &[u16],
    chapter: u16,
    start: u16,
    end: u16,
    verse_count: u16,
) -> (r: Option<StudyPassage>)
    ensures
        r is Some <==> passage_draft_valid(book@, chapters@, chapter, start, end, verse_count),
        r matches Some(p) ==> p@ == range_passage(canon, book@, chapter, start, end) && passage_well_formed(p@),
{
    let name = chars_of(book);
    if name.len() == 0 || start == 0 || end < start || end > verse_count || end - start >= 200 {
        return None;
    }
    let mut found = false;
    let mut i: usize = 0;
    while i < chapters.len()
        invariant
            i <= chapters@.len(),
            found <==> exists|j: int| 0 <= j < i && chapters@[j] == chapter,
        decreases chapters.len() - i,
    {
        if chapters[i] == chapter {
            found = true;
        }
        i = i + 1;
    }
    if !found {
        return None;
    }
    Some(passage(canon, book, chapter, start, end))
}

fn selected_passage(canon: Canon, book: &str, chapter: u16, verses: &[u16]) -> (r: StudyPassage)
    ensures
        r@ == (PassageView { canon, book: book@, chapter, verses: verses@ }),
{
    let mut list: Vec<u16> = Vec::new();
    let mut i: usize = 0;
    while i < verses.len()
        invariant
            i <= verses.len(),
            list@ == verses@.take(i as int),
        decreases verses.len() - i,
    {
        list.push(verses[i]);
        assert(list@ =~= verses@.take(i + 1));
        i = i + 1;
    }
    assert(list@ =~= verses@);
    StudyPassage { canon, book: String::from_str(book), chapter, verses: list }
}

/// The passages of the built-in set made by `old_testament_mastery`, in order.
pub open spec fn old_testament_mastery_passages() -> Seq<PassageView> {
    seq![
        range_passage(Canon::PearlOfGreatPrice, "Moses"@, 1, 39, 39),
        range_passage(Canon::PearlOfGreatPrice, "Moses"@, 7, 18, 18),
        range_passage(Canon::PearlOfGreatPrice, "Abraham"@, 2, 9, 11),
        range_passage(Canon::PearlOfGreatPrice, "Abraham"@, 3, 22, 23),
        range_passage(Canon::OldTestament, "Genesis"@, 1, 26, 27),
        range_passage(Canon::OldTestament, "Genesis"@, 2, 24, 24),
        range_passage(Canon::OldTestament, "Genesis"@, 39, 9, 9),
        range_passage(Canon::OldTestament, "Exodus"@, 20, 3, 17),
        range_passage(Canon::OldTestament, "Joshua"@, 24, 15, 15),
        range_passage(Canon::OldTestament, "Psalms"@, 24, 3, 4),
        range_passage(Canon::OldTestament, "Proverbs"@, 3, 5, 6),
        range_passage(Canon::OldTestament, "Isaiah"@, 1, 18, 18),
        range_passage(Canon::OldTestament, "Isaiah"@, 5, 20, 20),
        range_passage(Canon::OldTestament, "Isaiah"@, 29, 13, 14),
        range_passage(Canon::OldTestament, "Isaiah"@, 53, 3, 5),
        range_passage(Canon::OldTestament, "Isaiah"@, 58, 6, 7),
        range_passage(Canon::OldTestament, "Isaiah"@, 58, 13, 14),
        range_passage(Canon::OldTestament, "Jeremiah"@, 1, 4, 5),
        range_passage(Canon::OldTestament, "Ezekiel"@, 3, 16, 17),
        range_passage(Canon::OldTestament, "Ezekiel"@, 37, 15, 17),
        range_passage(Canon::OldTestament, "Daniel"@, 2, 44, 45),
        range_passage(Canon::OldTestament, "Amos"@, 3, 7, 7),
        range_passage(Canon::OldTestament, "Malachi"@, 3, 8, 10),
        range_passage(Canon::OldTestament, "Malachi"@, 4, 5, 6),
    ]
}

/// The passages of the built-in set made by `new_testament_mastery`, in order.
pub open spec fn new_testament_mastery_passages() -> Seq<PassageView> {
    seq![
        range_passage(Canon::NewTestament, "Matthew"@, 5, 14, 16),
        range_passage(Canon::NewTestament, "Matthew"@, 11, 28, 30),
        range_passage(Canon::NewTestament, "Matthew"@, 16, 15, 19),
        range_passage(Canon::NewTestament, "Matthew"@, 22, 36, 39),
        range_passage(Canon::NewTestament, "Luke"@, 2, 10, 12),
        range_passage(Canon::NewTestament, "Luke"@, 22, 19, 20),
        range_passage(Canon::NewTestament, "Luke"@, 24, 36, 39),
        range_passage(Canon::NewTestament, "John"@, 3, 5, 5),
        range_passage(Canon::NewTestament, "John"@, 3, 16, 16),
        range_passage(Canon::NewTestament, "John"@, 7, 17, 17),
        range_passage(Canon::NewTestament, "John"@, 17, 3, 3),
        range_passage(Canon::NewTestament, "1 Corinthians"@, 6, 19, 20),
        range_passage(Canon::NewTestament, "1 Corinthians"@, 11, 11, 11),
        range_passage(Canon::NewTestament, "1 Corinthians"@, 15, 20, 22),
        range_passage(Canon::NewTestament, "1 Corinthians"@, 15, 40, 42),
        range_passage(Canon::NewTestament, "Ephesians"@, 1, 10, 10),
        range_passage(Canon::NewTestament, "Ephesians"@, 2, 19, 20),
        range_passage(Canon::NewTestament, "2 Thessalonians"@, 2, 1, 3),
        range_passage(Canon::NewTestament, "2 Timothy"@, 3, 15, 17),
        range_passage(Canon::NewTestament, "Hebrews"@, 12, 9, 9),
        range_passage(Canon::NewTestament, "James"@, 1, 5, 6),
        range_passage(Canon::NewTestament, "James"@, 2, 17, 18),
        range_passage(Canon::NewTestament, "1 Peter"@, 4, 6, 6),
        range_passage(Canon::NewTestament, "Revelation"@, 20, 12, 12),
    ]
}

/// The passages of the built-in set made by `book_of_mormon_mastery`, in order.
pub open spec fn book_of_mormon_mastery_passages() -> Seq<PassageView> {
    seq![
        range_passage(Canon::BookOfMormon, "1 Nephi"@, 3, 7, 7),
        range_passage(Canon::BookOfMormon, "2 Nephi"@, 2, 25, 25),
        range_passage(Canon::BookOfMormon, "2 Nephi"@, 2, 27, 27),
        range_passage(Canon::BookOfMormon, "2 Nephi"@, 26, 33, 33),
        range_passage(Canon::BookOfMormon, "2 Nephi"@, 28, 30, 30),
        range_passage(Canon::BookOfMormon, "2 Nephi"@, 32, 3, 3),
        range_passage(Canon::BookOfMormon, "2 Nephi"@, 32, 8, 9),
        range_passage(Canon::BookOfMormon, "Mosiah"@, 2, 17, 17),
        range_passage(Canon::BookOfMormon, "Mosiah"@, 2, 41, 41),
        range_passage(Canon::BookOfMormon, "Mosiah"@, 3, 19, 19),
        range_passage(Canon::BookOfMormon, "Mosiah"@, 4, 9, 9),
        range_passage(Canon::BookOfMormon, "Mosiah"@, 18, 8, 10),
        range_passage(Canon::BookOfMormon, "Alma"@, 7, 11, 13),
        range_passage(Canon::BookOfMormon, "Alma"@, 34, 9, 10),
        range_passage(Canon::BookOfMormon, "Alma"@, 39, 9, 9),
        range_passage(Canon::BookOfMormon, "Alma"@, 41, 10, 10),
        range_passage(Canon::BookOfMormon, "Helaman"@, 5, 12, 12),
        range_passage(Canon::BookOfMormon, "3 Nephi"@, 11, 10, 11),
        range_passage(Canon::BookOfMormon, "3 Nephi"@, 12, 48, 48),
        range_passage(Canon::BookOfMormon, "3 Nephi"@, 27, 20, 20),
        range_passage(Canon::BookOfMormon, "Ether"@, 12, 6, 6),
        range_passage(Canon::BookOfMormon, "Ether"@, 12, 27, 27),
        range_passage(Canon::BookOfMormon, "Moroni"@, 7, 45, 48),
        range_passage(Canon::BookOfMormon, "Moroni"@, 10, 4, 5),
    ]
}

/// The passages of the built-in set made by `doctrine_and_covenants_mastery`, in order.
pub open spec fn doctrine_and_covenants_mastery_passages() -> Seq<PassageView> {
    seq![
        range_passage(Canon::PearlOfGreatPrice, "Joseph Smith—History"@, 1, 15, 20),
        range_passage(Canon::DoctrineAndCovenants, "D&C"@, 1, 30, 30),
        range_passage(Canon::DoctrineAndCovenants, "D&C"@, 1, 37, 38),
        range_passage(Canon::DoctrineAndCovenants, "D&C"@, 6, 36, 36),
        range_passage(Canon::DoctrineAndCovenants, "D&C"@, 8, 2, 3),
        range_passage(Canon::DoctrineAndCovenants, "D&C"@, 13, 1, 1),
        range_passage(Canon::DoctrineAndCovenants, "D&C"@, 18, 10, 11),
        range_passage(Canon::DoctrineAndCovenants, "D&C"@, 18, 15, 16),
        range_passage(Canon::DoctrineAndCovenants, "D&C"@, 19, 16, 19),
        range_passage(Canon::DoctrineAndCovenants, "D&C"@, 21, 4, 6),
        range_passage(Canon::DoctrineAndCovenants, "D&C"@, 29, 10, 11),
        range_passage(Canon::DoctrineAndCovenants, "D&C"@, 49, 15, 17),
        range_passage(Canon::DoctrineAndCovenants, "D&C"@, 58, 42, 43),
        range_passage(Canon::DoctrineAndCovenants, "D&C"@, 64, 9, 11),
        range_passage(Canon::DoctrineAndCovenants, "D&C"@, 76, 22, 24),
        range_passage(Canon::DoctrineAndCovenants, "D&C"@, 82, 10, 10),
        range_passage(Canon::DoctrineAndCovenants, "D&C"@, 84, 20, 22),
        range_passage(Canon::DoctrineAndCovenants, "D&C"@, 88, 118, 118),
        range_passage(Canon::DoctrineAndCovenants, "D&C"@, 89, 18, 21),
        range_passage(Canon::DoctrineAndCovenants, "D&C"@, 107, 8, 8),
        PassageView { canon: Canon::DoctrineAndCovenants, book: "D&C"@, chapter: 121, verses: seq![36, 41, 42] },
        range_passage(Canon::DoctrineAndCovenants, "D&C"@, 130, 22, 23),
        range_passage(Canon::DoctrineAndCovenants, "D&C"@, 131, 1, 4),
        range_passage(Canon::DoctrineAndCovenants, "D&C"@, 135, 3, 3),
    ]
}

/// The guess scope of the built-in Old Testament set: the Old Testament, with Moses and Abraham.
pub open spec fn old_testament_mastery_scope() -> Seq<(Canon, BookSelection)> {
    seq![
        (Canon::OldTestament, BookSelection::All),
        (Canon::PearlOfGreatPrice, BookSelection::Selected(seq!["Moses"@, "Abraham"@])),
    ]
}

/// The guess scope of the built-in Doctrine and Covenants set: the Doctrine and Covenants,
/// with Joseph Smith—History.
pub open spec fn doctrine_and_covenants_mastery_scope() -> Seq<(Canon, BookSelection)> {
    seq![
        (Canon::DoctrineAndCovenants, BookSelection::All),
        (Canon::PearlOfGreatPrice, BookSelection::Selected(seq!["Joseph Smith—History"@])),
    ]
}

/// The position of a book in the order in which the built-in sets list their books.
spec fn mastery_book_rank(book: Seq<char>) -> int {
    if book == "Moses"@ {
        0
    } else if book == "Abraham"@ {
        1
    } else if book == "Genesis"@ {
        2
    } else if book == "Exodus"@ {
        3
    } else if book == "Joshua"@ {
        4
    } else if book == "Psalms"@ {
        5
    } else if book == "Proverbs"@ {
        6
    } else if book == "Isaiah"@ {
        7
    } else if book == "Jeremiah"@ {
        8
    } else if book == "Ezekiel"@ {
        9
    } else if book == "Daniel"@ {
        10
    } else if book == "Amos"@ {
        11
    } else if book == "Malachi"@ {
        12
    } else if book == "Matthew"@ {
        13
    } else if book == "Luke"@ {
        14
    } else if book == "John"@ {
        15
    } else if book == "1 Corinthians"@ {
        16
    } else if book == "Ephesians"@ {
        17
    } else if book == "2 Thessalonians"@ {
        18
    } else if book == "2 Timothy"@ {
        19
    } else if book == "Hebrews"@ {
        20
    } else if book == "James"@ {
        21
    } else if book == "1 Peter"@ {
        22
    } else if book == "Revelation"@ {
        23
    } else if book == "1 Nephi"@ {
        24
    } else if book == "2 Nephi"@ {
        25
    } else if book == "Mosiah"@ {
        26
    } else if book == "Alma"@ {
        27
    } else if book == "Helaman"@ {
        28
    } else if book == "3 Nephi"@ {
        29
    } else if book == "Ether"@ {
        30
    } else if book == "Moroni"@ {
        31
    } else if book == "Joseph Smith—History"@ {
        32
    } else if book == "D&C"@ {
        33
    } else {
        34
    }
}

/// A number that grows along the built-in sets: book position, then chapter, then first verse.
spec fn mastery_key(p: PassageView) -> int {
    mastery_book_rank(p.book) * 1000000 + p.chapter * 1000 + if p.verses.len() > 0 { p.verses[0] as int } else { 0 }
}

spec fn keys_rise(s: Seq<PassageView>) -> bool {
    forall|i: int| 0 <= i < s.len() - 1 ==> #[trigger] mastery_key(s[i]) < mastery_key(s[i + 1])
}

/// The lengths of the book names of the built-in sets, and the characters that tell apart
/// names of equal length.
proof fn lemma_mastery_name_facts()
    ensures
        "Moses"@.len() == 5 && "Moses"@[0] == 'M',
        "Abraham"@.len() == 7 && "Abraham"@[0] == 'A',
        "Genesis"@.len() == 7 && "Genesis"@[0] == 'G',
        "Exodus"@.len() == 6 && "Exodus"@[0] == 'E',
        "Joshua"@.len() == 6 && "Joshua"@[0] == 'J',
        "Psalms"@.len() == 6 && "Psalms"@[0] == 'P',
        "Proverbs"@.len() == 8 && "Proverbs"@[0] == 'P',
        "Isaiah"@.len() == 6 && "Isaiah"@[0] == 'I',
        "Jeremiah"@.len() == 8 && "Jeremiah"@[0] == 'J',
        "Ezekiel"@.len() == 7 && "Ezekiel"@[0] == 'E',
        "Daniel"@.len() == 6 && "Daniel"@[0] == 'D',
        "Amos"@.len() == 4 && "Amos"@[0] == 'A' && "Amos"@[1] == 'm',
        "Malachi"@.len() == 7 && "Malachi"@[0] == 'M' && "Malachi"@[2] == 'l',
        "Matthew"@.len() == 7 && "Matthew"@[0] == 'M' && "Matthew"@[2] == 't',
        "Luke"@.len() == 4 && "Luke"@[0] == 'L',
        "John"@.len() == 4 && "John"@[0] == 'J',
        "1 Corinthians"@.len() == 13,
        "Ephesians"@.len() == 9 && "Ephesians"@[0] == 'E',
        "2 Thessalonians"@.len() == 15,
        "2 Timothy"@.len() == 9 && "2 Timothy"@[0] == '2',
        "Hebrews"@.len() == 7 && "Hebrews"@[0] == 'H' && "Hebrews"@[2] == 'b',
        "James"@.len() == 5 && "James"@[0] == 'J',
        "1 Peter"@.len() == 7 && "1 Peter"@[0] == '1' && "1 Peter"@[2] == 'P',
        "Revelation"@.len() == 10,
        "1 Nephi"@.len() == 7 && "1 Nephi"@[0] == '1' && "1 Nephi"@[2] == 'N',
        "2 Nephi"@.len() == 7 && "2 Nephi"@[0] == '2',
        "Mosiah"@.len() == 6 && "Mosiah"@[0] == 'M' && "Mosiah"@[2] == 's',
        "Alma"@.len() == 4 && "Alma"@[0] == 'A' && "Alma"@[1] == 'l',
        "Helaman"@.len() == 7 && "Helaman"@[0] == 'H' && "Helaman"@[2] == 'l',
        "3 Nephi"@.len() == 7 && "3 Nephi"@[0] == '3',
        "Ether"@.len() == 5 && "Ether"@[0] == 'E',
        "Moroni"@.len() == 6 && "Moroni"@[0] == 'M' && "Moroni"@[2] == 'r',
        "Joseph Smith—History"@.len() == 20,
        "D&C"@.len() == 3,
{
    reveal_strlit("Moses");
    reveal_strlit("Abraham");
    reveal_strlit("Genesis");
    reveal_strlit("Exodus");
    reveal_strlit("Joshua");
    reveal_strlit("Psalms");
    reveal_strlit("Proverbs");
    reveal_strlit("Isaiah");
    reveal_strlit("Jeremiah");
    reveal_strlit("Ezekiel");
    reveal_strlit("Daniel");
    reveal_strlit("Amos");
    reveal_strlit("Malachi");
    reveal_strlit("Matthew");
    reveal_strlit("Luke");
    reveal_strlit("John");
    reveal_strlit("1 Corinthians");
    reveal_strlit("Ephesians");
    reveal_strlit("2 Thessalonians");
    reveal_strlit("2 Timothy");
    reveal_strlit("Hebrews");
    reveal_strlit("James");
    reveal_strlit("1 Peter");
    reveal_strlit("Revelation");
    reveal_strlit("1 Nephi");
    reveal_strlit("2 Nephi");
    reveal_strlit("Mosiah");
    reveal_strlit("Alma");
    reveal_strlit("Helaman");
    reveal_strlit("3 Nephi");
    reveal_strlit("Ether");
    reveal_strlit("Moroni");
    reveal_strlit("Joseph Smith—History");
    reveal_strlit("D&C");
}

/// The position of each book name of the built-in sets.
proof fn lemma_mastery_ranks()
    ensures
        mastery_book_rank("Moses"@) == 0,
        mastery_book_rank("Abraham"@) == 1,
        mastery_book_rank("Genesis"@) == 2,
        mastery_book_rank("Exodus"@) == 3,
        mastery_book_rank("Joshua"@) == 4,
        mastery_book_rank("Psalms"@) == 5,
        mastery_book_rank("Proverbs"@) == 6,
        mastery_book_rank("Isaiah"@) == 7,
        mastery_book_rank("Jeremiah"@) == 8,
        mastery_book_rank("Ezekiel"@) == 9,
        mastery_book_rank("Daniel"@) == 10,
        mastery_book_rank("Amos"@) == 11,
        mastery_book_rank("Malachi"@) == 12,
        mastery_book_rank("Matthew"@) == 13,
        mastery_book_rank("Luke"@) == 14,
        mastery_book_rank("John"@) == 15,
        mastery_book_rank("1 Corinthians"@) == 16,
        mastery_book_rank("Ephesians"@) == 17,
        mastery_book_rank("2 Thessalonians"@) == 18,
        mastery_book_rank("2 Timothy"@) == 19,
        mastery_book_rank("Hebrews"@) == 20,
        mastery_book_rank("James"@) == 21,
        mastery_book_rank("1 Peter"@) == 22,
        mastery_book_rank("Revelation"@) == 23,
        mastery_book_rank("1 Nephi"@) == 24,
        mastery_book_rank("2 Nephi"@) == 25,
        mastery_book_rank("Mosiah"@) == 26,
        mastery_book_rank("Alma"@) == 27,
        mastery_book_rank("Helaman"@) == 28,
        mastery_book_rank("3 Nephi"@) == 29,
        mastery_book_rank("Ether"@) == 30,
        mastery_book_rank("Moroni"@) == 31,
        mastery_book_rank("Joseph Smith—History"@) == 32,
        mastery_book_rank("D&C"@) == 33,
{
    lemma_mastery_name_facts();
}

proof fn lemma_keys_rise_no_repeats(s: Seq<PassageView>)
    requires
        keys_rise(s),
    ensures
        s.no_duplicates(),
        forall|i: int, j: int| 0 <= i < j < s.len() ==> #[trigger] mastery_key(s[i]) < #[trigger] mastery_key(s[j]),
    decreases s.len(),
{
    if s.len() > 1 {
        let t = s.drop_last();
        assert forall|i: int| 0 <= i < t.len() - 1 implies #[trigger] mastery_key(t[i]) < mastery_key(t[i + 1]) by {
            assert(mastery_key(s[i]) < mastery_key(s[i + 1]));
        }
        lemma_keys_rise_no_repeats(t);
        assert forall|i: int, j: int| 0 <= i < j < s.len() implies #[trigger] mastery_key(s[i]) < #[trigger] mastery_key(s[j]) by {
            if j < s.len() - 1 {
                assert(mastery_key(t[i]) < mastery_key(t[j]));
            } else if i < j - 1 {
                assert(mastery_key(t[i]) < mastery_key(t[j - 1]));
                assert(mastery_key(s[j - 1]) < mastery_key(s[j]));
            } else {
                assert(mastery_key(s[i]) < mastery_key(s[i + 1]));
            }
        }
    }
    assert forall|i: int, j: int| 0 <= i < s.len() && 0 <= j < s.len() && i != j implies s[i] != s[j] by {
        if i < j {
            assert(mastery_key(s[i]) < mastery_key(s[j]));
        } else {
            assert(mastery_key(s[j]) < mastery_key(s[i]));
        }
    }
}

proof fn lemma_keys_rise_join(a: Seq<PassageView>, b: Seq<PassageView>)
    requires
        keys_rise(a),
        keys_rise(b),
        a.len() > 0 && b.len() > 0 ==> mastery_key(a.last()) < mastery_key(b[0]),
    ensures
        keys_rise(a + b),
{
    let c = a + b;
    assert forall|i: int| 0 <= i < c.len() - 1 implies #[trigger] mastery_key(c[i]) < mastery_key(c[i + 1]) by {
        if i + 1 < a.len() {
            assert(mastery_key(a[i]) < mastery_key(a[i + 1]));
        } else if i + 1 == a.len() {
        } else {
            assert(mastery_key(b[i - a.len()]) < mastery_key(b[i - a.len() + 1]));
        }
    }
}

proof fn lemma_old_testament_mastery_keys_rise()
    ensures
        keys_rise(old_testament_mastery_passages()),
{
    lemma_mastery_ranks();
    let s = old_testament_mastery_passages();
    assert forall|i: int| 0 <= i < s.len() - 1 implies #[trigger] mastery_key(s[i]) < mastery_key(s[i + 1]) by {
        assert(0 <= i < 23);
        if i == 0 {
            assert(mastery_key(s[0]) < mastery_key(s[1]));
        } else if i == 1 {
            assert(mastery_key(s[1]) < mastery_key(s[2]));
        } else if i == 2 {
            assert(mastery_key(s[2]) < mastery_key(s[3]));
        } else if i == 3 {
            assert(mastery_key(s[3]) < mastery_key(s[4]));
        } else if i == 4 {
            assert(mastery_key(s[4]) < mastery_key(s[5]));
        } else if i == 5 {
            assert(mastery_key(s[5]) < mastery_key(s[6]));
        } else if i == 6 {
            assert(mastery_key(s[6]) < mastery_key(s[7]));
        } else if i == 7 {
            assert(mastery_key(s[7]) < mastery_key(s[8]));
        } else if i == 8 {
            assert(mastery_key(s[8]) < mastery_key(s[9]));
        } else if i == 9 {
            assert(mastery_key(s[9]) < mastery_key(s[10]));
        } else if i == 10 {
            assert(mastery_key(s[10]) < mastery_key(s[11]));
        } else if i == 11 {
            assert(mastery_key(s[11]) < mastery_key(s[12]));
        } else if i == 12 {
            assert(mastery_key(s[12]) < mastery_key(s[13]));
        } else if i == 13 {
            assert(mastery_key(s[13]) < mastery_key(s[14]));
        } else if i == 14 {
            assert(mastery_key(s[14]) < mastery_key(s[15]));
        } else if i == 15 {
            assert(mastery_key(s[15]) < mastery_key(s[16]));
        } else if i == 16 {
            assert(mastery_key(s[16]) < mastery_key(s[17]));
        } else if i == 17 {
            assert(mastery_key(s[17]) < mastery_key(s[18]));
        } else if i == 18 {
            assert(mastery_key(s[18]) < mastery_key(s[19]));
        } else if i == 19 {
            assert(mastery_key(s[19]) < mastery_key(s[20]));
        } else if i == 20 {
            assert(mastery_key(s[20]) < mastery_key(s[21]));
        } else if i == 21 {
            assert(mastery_key(s[21]) < mastery_key(s[22]));
        } else if i == 22 {
            assert(mastery_key(s[22]) < mastery_key(s[23]));
        }
    }
}

proof fn lemma_new_testament_mastery_keys_rise()
    ensures
        keys_rise(new_testament_mastery_passages()),
{
    lemma_mastery_ranks();
    let s = new_testament_mastery_passages();
    assert forall|i: int| 0 <= i < s.len() - 1 implies #[trigger] mastery_key(s[i]) < mastery_key(s[i + 1]) by {
        assert(0 <= i < 23);
        if i == 0 {
            assert(mastery_key(s[0]) < mastery_key(s[1]));
        } else if i == 1 {
            assert(mastery_key(s[1]) < mastery_key(s[2]));
        } else if i == 2 {
            assert(mastery_key(s[2]) < mastery_key(s[3]));
        } else if i == 3 {
            assert(mastery_key(s[3]) < mastery_key(s[4]));
        } else if i == 4 {
            assert(mastery_key(s[4]) < mastery_key(s[5]));
        } else if i == 5 {
            assert(mastery_key(s[5]) < mastery_key(s[6]));
        } else if i == 6 {
            assert(mastery_key(s[6]) < mastery_key(s[7]));
        } else if i == 7 {
            assert(mastery_key(s[7]) < mastery_key(s[8]));
        } else if i == 8 {
            assert(mastery_key(s[8]) < mastery_key(s[9]));
        } else if i == 9 {
            assert(mastery_key(s[9]) < mastery_key(s[10]));
        } else if i == 10 {
            assert(mastery_key(s[10]) < mastery_key(s[11]));
        } else if i == 11 {
            assert(mastery_key(s[11]) < mastery_key(s[12]));
        } else if i == 12 {
            assert(mastery_key(s[12]) < mastery_key(s[13]));
        } else if i == 13 {
            assert(mastery_key(s[13]) < mastery_key(s[14]));
        } else if i == 14 {
            assert(mastery_key(s[14]) < mastery_key(s[15]));
        } else if i == 15 {
            assert(mastery_key(s[15]) < mastery_key(s[16]));
        } else if i == 16 {
            assert(mastery_key(s[16]) < mastery_key(s[17]));
        } else if i == 17 {
            assert(mastery_key(s[17]) < mastery_key(s[18]));
        } else if i == 18 {
            assert(mastery_key(s[18]) < mastery_key(s[19]));
        } else if i == 19 {
            assert(mastery_key(s[19]) < mastery_key(s[20]));
        } else if i == 20 {
            assert(mastery_key(s[20]) < mastery_key(s[21]));
        } else if i == 21 {
            assert(mastery_key(s[21]) < mastery_key(s[22]));
        } else if i == 22 {
            assert(mastery_key(s[22]) < mastery_key(s[23]));
        }
    }
}

proof fn lemma_book_of_mormon_mastery_keys_rise()
    ensures
        keys_rise(book_of_mormon_mastery_passages()),
{
    lemma_mastery_ranks();
    let s = book_of_mormon_mastery_passages();
    assert forall|i: int| 0 <= i < s.len() - 1 implies #[trigger] mastery_key(s[i]) < mastery_key(s[i + 1]) by {
        assert(0 <= i < 23);
        if i == 0 {
            assert(mastery_key(s[0]) < mastery_key(s[1]));
        } else if i == 1 {
            assert(mastery_key(s[1]) < mastery_key(s[2]));
        } else if i == 2 {
            assert(mastery_key(s[2]) < mastery_key(s[3]));
        } else if i == 3 {
            assert(mastery_key(s[3]) < mastery_key(s[4]));
        } else if i == 4 {
            assert(mastery_key(s[4]) < mastery_key(s[5]));
        } else if i == 5 {
            assert(mastery_key(s[5]) < mastery_key(s[6]));
        } else if i == 6 {
            assert(mastery_key(s[6]) < mastery_key(s[7]));
        } else if i == 7 {
            assert(mastery_key(s[7]) < mastery_key(s[8]));
        } else if i == 8 {
            assert(mastery_key(s[8]) < mastery_key(s[9]));
        } else if i == 9 {
            assert(mastery_key(s[9]) < mastery_key(s[10]));
        } else if i == 10 {
            assert(mastery_key(s[10]) < mastery_key(s[11]));
        } else if i == 11 {
            assert(mastery_key(s[11]) < mastery_key(s[12]));
        } else if i == 12 {
            assert(mastery_key(s[12]) < mastery_key(s[13]));
        } else if i == 13 {
            assert(mastery_key(s[13]) < mastery_key(s[14]));
        } else if i == 14 {
            assert(mastery_key(s[14]) < mastery_key(s[15]));
        } else if i == 15 {
            assert(mastery_key(s[15]) < mastery_key(s[16]));
        } else if i == 16 {
            assert(mastery_key(s[16]) < mastery_key(s[17]));
        } else if i == 17 {
            assert(mastery_key(s[17]) < mastery_key(s[18]));
        } else if i == 18 {
            assert(mastery_key(s[18]) < mastery_key(s[19]));
        } else if i == 19 {
            assert(mastery_key(s[19]) < mastery_key(s[20]));
        } else if i == 20 {
            assert(mastery_key(s[20]) < mastery_key(s[21]));
        } else if i == 21 {
            assert(mastery_key(s[21]) < mastery_key(s[22]));
        } else if i == 22 {
            assert(mastery_key(s[22]) < mastery_key(s[23]));
        }
    }
}

proof fn lemma_doctrine_and_covenants_mastery_keys_rise()
    ensures
        keys_rise(doctrine_and_covenants_mastery_passages()),
{
    lemma_mastery_ranks();
    let s = doctrine_and_covenants_mastery_passages();
    assert forall|i: int| 0 <= i < s.len() - 1 implies #[trigger] mastery_key(s[i]) < mastery_key(s[i + 1]) by {
        assert(0 <= i < 23);
        if i == 0 {
            assert(mastery_key(s[0]) < mastery_key(s[1]));
        } else if i == 1 {
            assert(mastery_key(s[1]) < mastery_key(s[2]));
        } else if i == 2 {
            assert(mastery_key(s[2]) < mastery_key(s[3]));
        } else if i == 3 {
            assert(mastery_key(s[3]) < mastery_key(s[4]));
        } else if i == 4 {
            assert(mastery_key(s[4]) < mastery_key(s[5]));
        } else if i == 5 {
            assert(mastery_key(s[5]) < mastery_key(s[6]));
        } else if i == 6 {
            assert(mastery_key(s[6]) < mastery_key(s[7]));
        } else if i == 7 {
            assert(mastery_key(s[7]) < mastery_key(s[8]));
        } else if i == 8 {
            assert(mastery_key(s[8]) < mastery_key(s[9]));
        } else if i == 9 {
            assert(mastery_key(s[9]) < mastery_key(s[10]));
        } else if i == 10 {
            assert(mastery_key(s[10]) < mastery_key(s[11]));
        } else if i == 11 {
            assert(mastery_key(s[11]) < mastery_key(s[12]));
        } else if i == 12 {
            assert(mastery_key(s[12]) < mastery_key(s[13]));
        } else if i == 13 {
            assert(mastery_key(s[13]) < mastery_key(s[14]));
        } else if i == 14 {
            assert(mastery_key(s[14]) < mastery_key(s[15]));
        } else if i == 15 {
            assert(mastery_key(s[15]) < mastery_key(s[16]));
        } else if i == 16 {
            assert(mastery_key(s[16]) < mastery_key(s[17]));
        } else if i == 17 {
            assert(mastery_key(s[17]) < mastery_key(s[18]));
        } else if i == 18 {
            assert(mastery_key(s[18]) < mastery_key(s[19]));
        } else if i == 19 {
            assert(mastery_key(s[19]) < mastery_key(s[20]));
        } else if i == 20 {
            assert(mastery_key(s[20]) < mastery_key(s[21]));
        } else if i == 21 {
            assert(mastery_key(s[21]) < mastery_key(s[22]));
        } else if i == 22 {
            assert(mastery_key(s[22]) < mastery_key(s[23]));
        }
    }
}

/// Every passage of the built-in Old Testament set lies within that set's guess scope.
proof fn lemma_old_testament_mastery_set_covered()
    ensures
        forall|i: int| 0 <= i < old_testament_mastery_passages().len() ==> scope_includes_book(
            old_testament_mastery_scope(),
            #[trigger] old_testament_mastery_passages()[i].canon,
            old_testament_mastery_passages()[i].book,
        ),
{
    let s = old_testament_mastery_passages();
    let scope = old_testament_mastery_scope();
    let pgp = scope[1].1->Selected_0;
    assert(scope_position(scope, Canon::OldTestament) == 0);
    assert(scope_position(scope.drop_first(), Canon::PearlOfGreatPrice) == 0);
    assert(scope_position(scope, Canon::PearlOfGreatPrice) == 1);
    assert(pgp[0] == "Moses"@);
    assert(pgp.contains("Moses"@));
    assert(pgp[1] == "Abraham"@);
    assert(pgp.contains("Abraham"@));
    assert forall|i: int| 0 <= i < s.len() implies scope_includes_book(scope, #[trigger] s[i].canon, s[i].book) by {
        assert(s[i].canon == Canon::OldTestament || s[i].book == "Moses"@ || s[i].book == "Abraham"@) by {
            assert(0 <= i < 24);
            if i == 0 {
                assert(s[0].canon == Canon::OldTestament || s[0].book == "Moses"@ || s[0].book == "Abraham"@);
            } else if i == 1 {
                assert(s[1].canon == Canon::OldTestament || s[1].book == "Moses"@ || s[1].book == "Abraham"@);
            } else if i == 2 {
                assert(s[2].canon == Canon::OldTestament || s[2].book == "Moses"@ || s[2].book == "Abraham"@);
            } else if i == 3 {
                assert(s[3].canon == Canon::OldTestament || s[3].book == "Moses"@ || s[3].book == "Abraham"@);
            } else if i == 4 {
                assert(s[4].canon == Canon::OldTestament || s[4].book == "Moses"@ || s[4].book == "Abraham"@);
            } else if i == 5 {
                assert(s[5].canon == Canon::OldTestament || s[5].book == "Moses"@ || s[5].book == "Abraham"@);
            } else if i == 6 {
                assert(s[6].canon == Canon::OldTestament || s[6].book == "Moses"@ || s[6].book == "Abraham"@);
            } else if i == 7 {
                assert(s[7].canon == Canon::OldTestament || s[7].book == "Moses"@ || s[7].book == "Abraham"@);
            } else if i == 8 {
                assert(s[8].canon == Canon::OldTestament || s[8].book == "Moses"@ || s[8].book == "Abraham"@);
            } else if i == 9 {
                assert(s[9].canon == Canon::OldTestament || s[9].book == "Moses"@ || s[9].book == "Abraham"@);
            } else if i == 10 {
                assert(s[10].canon == Canon::OldTestament || s[10].book == "Moses"@ || s[10].book == "Abraham"@);
            } else if i == 11 {
                assert(s[11].canon == Canon::OldTestament || s[11].book == "Moses"@ || s[11].book == "Abraham"@);
            } else if i == 12 {
                assert(s[12].canon == Canon::OldTestament || s[12].book == "Moses"@ || s[12].book == "Abraham"@);
            } else if i == 13 {
                assert(s[13].canon == Canon::OldTestament || s[13].book == "Moses"@ || s[13].book == "Abraham"@);
            } else if i == 14 {
                assert(s[14].canon == Canon::OldTestament || s[14].book == "Moses"@ || s[14].book == "Abraham"@);
            } else if i == 15 {
                assert(s[15].canon == Canon::OldTestament || s[15].book == "Moses"@ || s[15].book == "Abraham"@);
            } else if i == 16 {
                assert(s[16].canon == Canon::OldTestament || s[16].book == "Moses"@ || s[16].book == "Abraham"@);
            } else if i == 17 {
                assert(s[17].canon == Canon::OldTestament || s[17].book == "Moses"@ || s[17].book == "Abraham"@);
            } else if i == 18 {
                assert(s[18].canon == Canon::OldTestament || s[18].book == "Moses"@ || s[18].book == "Abraham"@);
            } else if i == 19 {
                assert(s[19].canon == Canon::OldTestament || s[19].book == "Moses"@ || s[19].book == "Abraham"@);
            } else if i == 20 {
                assert(s[20].canon == Canon::OldTestament || s[20].book == "Moses"@ || s[20].book == "Abraham"@);
            } else if i == 21 {
                assert(s[21].canon == Canon::OldTestament || s[21].book == "Moses"@ || s[21].book == "Abraham"@);
            } else if i == 22 {
                assert(s[22].canon == Canon::OldTestament || s[22].book == "Moses"@ || s[22].book == "Abraham"@);
            } else if i == 23 {
                assert(s[23].canon == Canon::OldTestament || s[23].book == "Moses"@ || s[23].book == "Abraham"@);
            }
        }
    }
}

/// Every passage of the built-in Doctrine and Covenants set lies within that set's guess scope.
proof fn lemma_doctrine_and_covenants_mastery_set_covered()
    ensures
        forall|i: int| 0 <= i < doctrine_and_covenants_mastery_passages().len() ==> scope_includes_book(
            doctrine_and_covenants_mastery_scope(),
            #[trigger] doctrine_and_covenants_mastery_passages()[i].canon,
            doctrine_and_covenants_mastery_passages()[i].book,
        ),
{
    let s = doctrine_and_covenants_mastery_passages();
    let scope = doctrine_and_covenants_mastery_scope();
    let pgp = scope[1].1->Selected_0;
    assert(scope_position(scope, Canon::DoctrineAndCovenants) == 0);
    assert(scope_position(scope.drop_first(), Canon::PearlOfGreatPrice) == 0);
    assert(scope_position(scope, Canon::PearlOfGreatPrice) == 1);
    assert(pgp[0] == "Joseph Smith—History"@);
    assert(pgp.contains("Joseph Smith—History"@));
    assert forall|i: int| 0 <= i < s.len() implies scope_includes_book(scope, #[trigger] s[i].canon, s[i].book) by {
        assert(s[i].canon == Canon::DoctrineAndCovenants || s[i].book == "Joseph Smith—History"@) by {
            assert(0 <= i < 24);
            if i == 0 {
                assert(s[0].canon == Canon::DoctrineAndCovenants || s[0].book == "Joseph Smith—History"@);
            } else if i == 1 {
                assert(s[1].canon == Canon::DoctrineAndCovenants || s[1].book == "Joseph Smith—History"@);
            } else if i == 2 {
                assert(s[2].canon == Canon::DoctrineAndCovenants || s[2].book == "Joseph Smith—History"@);
            } else if i == 3 {
                assert(s[3].canon == Canon::DoctrineAndCovenants || s[3].book == "Joseph Smith—History"@);
            } else if i == 4 {
                assert(s[4].canon == Canon::DoctrineAndCovenants || s[4].book == "Joseph Smith—History"@);
            } else if i == 5 {
                assert(s[5].canon == Canon::DoctrineAndCovenants || s[5].book == "Joseph Smith—History"@);
            } else if i == 6 {
                assert(s[6].canon == Canon::DoctrineAndCovenants || s[6].book == "Joseph Smith—History"@);
            } else if i == 7 {
                assert(s[7].canon == Canon::DoctrineAndCovenants || s[7].book == "Joseph Smith—History"@);
            } else if i == 8 {
                assert(s[8].canon == Canon::DoctrineAndCovenants || s[8].book == "Joseph Smith—History"@);
            } else if i == 9 {
                assert(s[9].canon == Canon::DoctrineAndCovenants || s[9].book == "Joseph Smith—History"@);
            } else if i == 10 {
                assert(s[10].canon == Canon::DoctrineAndCovenants || s[10].book == "Joseph Smith—History"@);
            } else if i == 11 {
                assert(s[11].canon == Canon::DoctrineAndCovenants || s[11].book == "Joseph Smith—History"@);
            } else if i == 12 {
                assert(s[12].canon == Canon::DoctrineAndCovenants || s[12].book == "Joseph Smith—History"@);
            } else if i == 13 {
                assert(s[13].canon == Canon::DoctrineAndCovenants || s[13].book == "Joseph Smith—History"@);
            } else if i == 14 {
                assert(s[14].canon == Canon::DoctrineAndCovenants || s[14].book == "Joseph Smith—History"@);
            } else if i == 15 {
                assert(s[15].canon == Canon::DoctrineAndCovenants || s[15].book == "Joseph Smith—History"@);
            } else if i == 16 {
                assert(s[16].canon == Canon::DoctrineAndCovenants || s[16].book == "Joseph Smith—History"@);
            } else if i == 17 {
                assert(s[17].canon == Canon::DoctrineAndCovenants || s[17].book == "Joseph Smith—History"@);
            } else if i == 18 {
                assert(s[18].canon == Canon::DoctrineAndCovenants || s[18].book == "Joseph Smith—History"@);
            } else if i == 19 {
                assert(s[19].canon == Canon::DoctrineAndCovenants || s[19].book == "Joseph Smith—History"@);
            } else if i == 20 {
                assert(s[20].canon == Canon::DoctrineAndCovenants || s[20].book == "Joseph Smith—History"@);
            } else if i == 21 {
                assert(s[21].canon == Canon::DoctrineAndCovenants || s[21].book == "Joseph Smith—History"@);
            } else if i == 22 {
                assert(s[22].canon == Canon::DoctrineAndCovenants || s[22].book == "Joseph Smith—History"@);
            } else if i == 23 {
                assert(s[23].canon == Canon::DoctrineAndCovenants || s[23].book == "Joseph Smith—History"@);
            }
        }
    }
}

/// No passage occurs twice in a built-in set, nor in the four of them joined in order.
proof fn lemma_mastery_sets_no_repeats()
    ensures
        old_testament_mastery_passages().no_duplicates(),
        new_testament_mastery_passages().no_duplicates(),
        book_of_mormon_mastery_passages().no_duplicates(),
        doctrine_and_covenants_mastery_passages().no_duplicates(),
        (old_testament_mastery_passages() + new_testament_mastery_passages() + book_of_mormon_mastery_passages()
            + doctrine_and_covenants_mastery_passages()).no_duplicates(),
{
    let pa = old_testament_mastery_passages();
    let pb = new_testament_mastery_passages();
    let pc = book_of_mormon_mastery_passages();
    let pd = doctrine_and_covenants_mastery_passages();
    lemma_mastery_ranks();
    lemma_old_testament_mastery_keys_rise();
    lemma_new_testament_mastery_keys_rise();
    lemma_book_of_mormon_mastery_keys_rise();
    lemma_doctrine_and_covenants_mastery_keys_rise();
    lemma_keys_rise_join(pa, pb);
    lemma_keys_rise_join(pa + pb, pc);
    lemma_keys_rise_join(pa + pb + pc, pd);
    lemma_keys_rise_no_repeats(pa);
    lemma_keys_rise_no_repeats(pb);
    lemma_keys_rise_no_repeats(pc);
    lemma_keys_rise_no_repeats(pd);
    lemma_keys_rise_no_repeats(pa + pb + pc + pd);
}

fn old_testament_mastery() -> (r: StudySet)
    ensures
        passages_view(r.passages@) == old_testament_mastery_passages(),
        r.id@ == "doctrinal-mastery-old-testament"@,
        r.name@ == "Old Testament Doctrinal Mastery"@,
        r.prompt_policy == PromptPolicy::WholePassage,
        r.guess_scope matches StudyGuessScope::Custom(g) && g@ == old_testament_mastery_scope(),
        r.passages@.len() == 24,
        forall|i: int| 0 <= i < r.passages@.len() ==> passage_well_formed(#[trigger] r.passages@[i]@),
{
    let mut passages: Vec<StudyPassage> = Vec::new();
    passages.push(passage(Canon::PearlOfGreatPrice, "Moses", 1, 39, 39));
    passages.push(passage(Canon::PearlOfGreatPrice, "Moses", 7, 18, 18));
    passages.push(passage(Canon::PearlOfGreatPrice, "Abraham", 2, 9, 11));
    passages.push(passage(Canon::PearlOfGreatPrice, "Abraham", 3, 22, 23));
    passages.push(passage(Canon::OldTestament, "Genesis", 1, 26, 27));
    passages.push(passage(Canon::OldTestament, "Genesis", 2, 24, 24));
    passages.push(passage(Canon::OldTestament, "Genesis", 39, 9, 9));
    passages.push(passage(Canon::OldTestament, "Exodus", 20, 3, 17));
    passages.push(passage(Canon::OldTestament, "Joshua", 24, 15, 15));
    passages.push(passage(Canon::OldTestament, "Psalms", 24, 3, 4));
    passages.push(passage(Canon::OldTestament, "Proverbs", 3, 5, 6));
    passages.push(passage(Canon::OldTestament, "Isaiah", 1, 18, 18));
    passages.push(passage(Canon::OldTestament, "Isaiah", 5, 20, 20));
    passages.push(passage(Canon::OldTestament, "Isaiah", 29, 13, 14));
    passages.push(passage(Canon::OldTestament, "Isaiah", 53, 3, 5));
    passages.push(passage(Canon::OldTestament, "Isaiah", 58, 6, 7));
    passages.push(passage(Canon::OldTestament, "Isaiah", 58, 13, 14));
    passages.push(passage(Canon::OldTestament, "Jeremiah", 1, 4, 5));
    passages.push(passage(Canon::OldTestament, "Ezekiel", 3, 16, 17));
    passages.push(passage(Canon::OldTestament, "Ezekiel", 37, 15, 17));
    passages.push(passage(Canon::OldTestament, "Daniel", 2, 44, 45));
    passages.push(passage(Canon::OldTestament, "Amos", 3, 7, 7));
    passages.push(passage(Canon::OldTestament, "Malachi", 3, 8, 10));
    passages.push(passage(Canon::OldTestament, "Malachi", 4, 5, 6));
    assert(passages_view(passages@) =~= old_testament_mastery_passages());
    let mut canons: Vec<CanonScope> = Vec::new();
    canons.push(CanonScope { canon: Canon::OldTestament, books: BookScope::All });
    let mut selected: Vec<String> = Vec::new();
    selected.push(String::from_str("Moses"));
    selected.push(String::from_str("Abraham"));
    canons.push(CanonScope { canon: Canon::PearlOfGreatPrice, books: BookScope::Selected(selected) });
    assert(strings_view(selected@) =~= old_testament_mastery_scope()[1].1->Selected_0);
    assert(GameScope { canons }@ =~= old_testament_mastery_scope());
    let guess_scope = StudyGuessScope::Custom(GameScope { canons });
    StudySet {
        id: String::from_str("doctrinal-mastery-old-testament"),
        name: String::from_str("Old Testament Doctrinal Mastery"),
        passages,
        guess_scope,
        prompt_policy: PromptPolicy::WholePassage,
    }
}

fn new_testament_mastery() -> (r: StudySet)
    ensures
        passages_view(r.passages@) == new_testament_mastery_passages(),
        r.id@ == "doctrinal-mastery-new-testament"@,
        r.name@ == "New Testament Doctrinal Mastery"@,
        r.prompt_policy == PromptPolicy::WholePassage,
        r.guess_scope == StudyGuessScope::FullCanons,
        r.passages@.len() == 24,
        forall|i: int| 0 <= i < r.passages@.len() ==> passage_well_formed(#[trigger] r.passages@[i]@),
{
    let mut passages: Vec<StudyPassage> = Vec::new();
    passages.push(passage(Canon::NewTestament, "Matthew", 5, 14, 16));
    passages.push(passage(Canon::NewTestament, "Matthew", 11, 28, 30));
    passages.push(passage(Canon::NewTestament, "Matthew", 16, 15, 19));
    passages.push(passage(Canon::NewTestament, "Matthew", 22, 36, 39));
    passages.push(passage(Canon::NewTestament, "Luke", 2, 10, 12));
    passages.push(passage(Canon::NewTestament, "Luke", 22, 19, 20));
    passages.push(passage(Canon::NewTestament, "Luke", 24, 36, 39));
    passages.push(passage(Canon::NewTestament, "John", 3, 5, 5));
    passages.push(passage(Canon::NewTestament, "John", 3, 16, 16));
    passages.push(passage(Canon::NewTestament, "John", 7, 17, 17));
    passages.push(passage(Canon::NewTestament, "John", 17, 3, 3));
    passages.push(passage(Canon::NewTestament, "1 Corinthians", 6, 19, 20));
    passages.push(passage(Canon::NewTestament, "1 Corinthians", 11, 11, 11));
    passages.push(passage(Canon::NewTestament, "1 Corinthians", 15, 20, 22));
    passages.push(passage(Canon::NewTestament, "1 Corinthians", 15, 40, 42));
    passages.push(passage(Canon::NewTestament, "Ephesians", 1, 10, 10));
    passages.push(passage(Canon::NewTestament, "Ephesians", 2, 19, 20));
    passages.push(passage(Canon::NewTestament, "2 Thessalonians", 2, 1, 3));
    passages.push(passage(Canon::NewTestament, "2 Timothy", 3, 15, 17));
    passages.push(passage(Canon::NewTestament, "Hebrews", 12, 9, 9));
    passages.push(passage(Canon::NewTestament, "James", 1, 5, 6));
    passages.push(passage(Canon::NewTestament, "James", 2, 17, 18));
    passages.push(passage(Canon::NewTestament, "1 Peter", 4, 6, 6));
    passages.push(passage(Canon::NewTestament, "Revelation", 20, 12, 12));
    assert(passages_view(passages@) =~= new_testament_mastery_passages());
    let guess_scope = StudyGuessScope::FullCanons;
    StudySet {
        id: String::from_str("doctrinal-mastery-new-testament"),
        name: String::from_str("New Testament Doctrinal Mastery"),
        passages,
        guess_scope,
        prompt_policy: PromptPolicy::WholePassage,
    }
}

fn book_of_mormon_mastery() -> (r: StudySet)
    ensures
        passages_view(r.passages@) == book_of_mormon_mastery_passages(),
        r.id@ == "doctrinal-mastery-book-of-mormon"@,
        r.name@ == "Book of Mormon Doctrinal Mastery"@,
        r.prompt_policy == PromptPolicy::WholePassage,
        r.guess_scope == StudyGuessScope::FullCanons,
        r.passages@.len() == 24,
        forall|i: int| 0 <= i < r.passages@.len() ==> passage_well_formed(#[trigger] r.passages@[i]@),
{
    let mut passages: Vec<StudyPassage> = Vec::new();
    passages.push(passage(Canon::BookOfMormon, "1 Nephi", 3, 7, 7));
    passages.push(passage(Canon::BookOfMormon, "2 Nephi", 2, 25, 25));
    passages.push(passage(Canon::BookOfMormon, "2 Nephi", 2, 27, 27));
    passages.push(passage(Canon::BookOfMormon, "2 Nephi", 26, 33, 33));
    passages.push(passage(Canon::BookOfMormon, "2 Nephi", 28, 30, 30));
    passages.push(passage(Canon::BookOfMormon, "2 Nephi", 32, 3, 3));
    passages.push(passage(Canon::BookOfMormon, "2 Nephi", 32, 8, 9));
    passages.push(passage(Canon::BookOfMormon, "Mosiah", 2, 17, 17));
    passages.push(passage(Canon::BookOfMormon, "Mosiah", 2, 41, 41));
    passages.push(passage(Canon::BookOfMormon, "Mosiah", 3, 19, 19));
    passages.push(passage(Canon::BookOfMormon, "Mosiah", 4, 9, 9));
    passages.push(passage(Canon::BookOfMormon, "Mosiah", 18, 8, 10));
    passages.push(passage(Canon::BookOfMormon, "Alma", 7, 11, 13));
    passages.push(passage(Canon::BookOfMormon, "Alma", 34, 9, 10));
    passages.push(passage(Canon::BookOfMormon, "Alma", 39, 9, 9));
    passages.push(passage(Canon::BookOfMormon, "Alma", 41, 10, 10));
    passages.push(passage(Canon::BookOfMormon, "Helaman", 5, 12, 12));
    passages.push(passage(Canon::BookOfMormon, "3 Nephi", 11, 10, 11));
    passages.push(passage(Canon::BookOfMormon, "3 Nephi", 12, 48, 48));
    passages.push(passage(Canon::BookOfMormon, "3 Nephi", 27, 20, 20));
    passages.push(passage(Canon::BookOfMormon, "Ether", 12, 6, 6));
    passages.push(passage(Canon::BookOfMormon, "Ether", 12, 27, 27));
    passages.push(passage(Canon::BookOfMormon, "Moroni", 7, 45, 48));
    passages.push(passage(Canon::BookOfMormon, "Moroni", 10, 4, 5));
    assert(passages_view(passages@) =~= book_of_mormon_mastery_passages());
    let guess_scope = StudyGuessScope::FullCanons;
    StudySet {
        id: String::from_str("doctrinal-mastery-book-of-mormon"),
        name: String::from_str("Book of Mormon Doctrinal Mastery"),
        passages,
        guess_scope,
        prompt_policy: PromptPolicy::WholePassage,
    }
}

fn doctrine_and_covenants_mastery() -> (r: StudySet)
    ensures
        passages_view(r.passages@) == doctrine_and_covenants_mastery_passages(),
        r.id@ == "doctrinal-mastery-doctrine-and-covenants"@,
        r.name@ == "Doctrine and Covenants Doctrinal Mastery"@,
        r.prompt_policy == PromptPolicy::WholePassage,
        r.guess_scope matches StudyGuessScope::Custom(g) && g@ == doctrine_and_covenants_mastery_scope(),
        r.passages@.len() == 24,
        forall|i: int| 0 <= i < r.passages@.len() ==> passage_well_formed(#[trigger] r.passages@[i]@),
{
    let mut passages: Vec<StudyPassage> = Vec::new();
    passages.push(passage(Canon::PearlOfGreatPrice, "Joseph Smith—History", 1, 15, 20));
    passages.push(passage(Canon::DoctrineAndCovenants, "D&C", 1, 30, 30));
    passages.push(passage(Canon::DoctrineAndCovenants, "D&C", 1, 37, 38));
    passages.push(passage(Canon::DoctrineAndCovenants, "D&C", 6, 36, 36));
    passages.push(passage(Canon::DoctrineAndCovenants, "D&C", 8, 2, 3));
    passages.push(passage(Canon::DoctrineAndCovenants, "D&C", 13, 1, 1));
    passages.push(passage(Canon::DoctrineAndCovenants, "D&C", 18, 10, 11));
    passages.push(passage(Canon::DoctrineAndCovenants, "D&C", 18, 15, 16));
    passages.push(passage(Canon::DoctrineAndCovenants, "D&C", 19, 16, 19));
    passages.push(passage(Canon::DoctrineAndCovenants, "D&C", 21, 4, 6));
    passages.push(passage(Canon::DoctrineAndCovenants, "D&C", 29, 10, 11));
    passages.push(passage(Canon::DoctrineAndCovenants, "D&C", 49, 15, 17));
    passages.push(passage(Canon::DoctrineAndCovenants, "D&C", 58, 42, 43));
    passages.push(passage(Canon::DoctrineAndCovenants, "D&C", 64, 9, 11));
    passages.push(passage(Canon::DoctrineAndCovenants, "D&C", 76, 22, 24));
    passages.push(passage(Canon::DoctrineAndCovenants, "D&C", 82, 10, 10));
    passages.push(passage(Canon::DoctrineAndCovenants, "D&C", 84, 20, 22));
    passages.push(passage(Canon::DoctrineAndCovenants, "D&C", 88, 118, 118));
    passages.push(passage(Canon::DoctrineAndCovenants, "D&C", 89, 18, 21));
    passages.push(passage(Canon::DoctrineAndCovenants, "D&C", 107, 8, 8));
    passages.push(selected_passage(Canon::DoctrineAndCovenants, "D&C", 121, &[36, 41, 42]));
    passages.push(passage(Canon::DoctrineAndCovenants, "D&C", 130, 22, 23));
    passages.push(passage(Canon::DoctrineAndCovenants, "D&C", 131, 1, 4));
    passages.push(passage(Canon::DoctrineAndCovenants, "D&C", 135, 3, 3));
    assert(passages_view(passages@) =~= doctrine_and_covenants_mastery_passages());
    let mut canons: Vec<CanonScope> = Vec::new();
    canons.push(CanonScope { canon: Canon::DoctrineAndCovenants, books: BookScope::All });
    let mut selected: Vec<String> = Vec::new();
    selected.push(String::from_str("Joseph Smith—History"));
    canons.push(CanonScope { canon: Canon::PearlOfGreatPrice, books: BookScope::Selected(selected) });
    assert(strings_view(selected@) =~= doctrine_and_covenants_mastery_scope()[1].1->Selected_0);
    assert(GameScope { canons }@ =~= doctrine_and_covenants_mastery_scope());
    let guess_scope = StudyGuessScope::Custom(GameScope { canons });
    StudySet {
        id: String::from_str("doctrinal-mastery-doctrine-and-covenants"),
        name: String::from_str("Doctrine and Covenants Doctrinal Mastery"),
        passages,
        guess_scope,
        prompt_policy: PromptPolicy::WholePassage,
    }
}

} // verus!

verus! {

/// Appends a copy of every passage of `from` to `to`.
fn append_passages(to: &mut Vec<StudyPassage>, from: &Vec<StudyPassage>)
    ensures
        passages_view(final(to)@) == passages_view(old(to)@) + passages_view(from@),
{
    let ghost start = passages_view(to@);
    let mut i: usize = 0;
    while i < from.len()
        invariant
            i <= from.len(),
            passages_view(to@) == start + passages_view(from@).take(i as int),
        decreases from.len() - i,
    {
        let ghost before = passages_view(to@);
        let p = from[i].copy();
        to.push(p);
        assert(passages_view(to@) =~= before.push(from@[i as int]@));
        assert(passages_view(from@).take(i + 1) =~= passages_view(from@).take(i as int).push(from@[i as int]@));
        assert(start + passages_view(from@).take(i + 1) =~= (start + passages_view(from@).take(i as int)).push(from@[i as int]@));
        i = i + 1;
    }
    assert(passages_view(from@).take(from.len() as int) =~= passages_view(from@));
}

/// The doctrinal mastery study sets: one with every passage, then one per course.
pub fn built_in_study_sets() -> (r: Vec<StudySet>)
    ensures
        r@.len() == 5,
        r@[0].id@ == "doctrinal-mastery-all"@,
        r@[0].name@ == "All Doctrinal Mastery"@,
        r@[0].guess_scope == StudyGuessScope::AllStandardWorks,
        r@[0].prompt_policy == PromptPolicy::WholePassage,
        passages_view(r@[0].passages@) == passages_view(r@[1].passages@) + passages_view(r@[2].passages@)
            + passages_view(r@[3].passages@) + passages_view(r@[4].passages@),
        r@[1].id@ == "doctrinal-mastery-old-testament"@,
        r@[1].name@ == "Old Testament Doctrinal Mastery"@,
        r@[1].guess_scope matches StudyGuessScope::Custom(g) && g@ == old_testament_mastery_scope(),
        passages_view(r@[1].passages@) == old_testament_mastery_passages(),
        r@[2].id@ == "doctrinal-mastery-new-testament"@,
        r@[2].name@ == "New Testament Doctrinal Mastery"@,
        r@[2].guess_scope == StudyGuessScope::FullCanons,
        passages_view(r@[2].passages@) == new_testament_mastery_passages(),
        r@[3].id@ == "doctrinal-mastery-book-of-mormon"@,
        r@[3].name@ == "Book of Mormon Doctrinal Mastery"@,
        r@[3].guess_scope == StudyGuessScope::FullCanons,
        passages_view(r@[3].passages@) == book_of_mormon_mastery_passages(),
        r@[4].id@ == "doctrinal-mastery-doctrine-and-covenants"@,
        r@[4].name@ == "Doctrine and Covenants Doctrinal Mastery"@,
        r@[4].guess_scope matches StudyGuessScope::Custom(g) && g@ == doctrine_and_covenants_mastery_scope(),
        passages_view(r@[4].passages@) == doctrine_and_covenants_mastery_passages(),
        forall|s: int| 0 <= s < 5 ==> (#[trigger] r@[s]).prompt_policy == PromptPolicy::WholePassage,
        forall|s: int| 1 <= s < 5 ==> (#[trigger] r@[s]).passages@.len() == 24,
        forall|s: int| 0 <= s < 5 ==> passages_view((#[trigger] r@[s]).passages@).no_duplicates(),
        forall|s: int, i: int| 0 <= s < 5 && 0 <= i < r@[s].passages@.len()
            ==> passage_well_formed(#[trigger] r@[s].passages@[i]@),
        forall|s: int, i: int| 0 <= s < 5 && 0 <= i < r@[s].passages@.len() ==> scope_includes_book(
            resolved_scope_spec(r@[s].guess_scope, passages_view(r@[s].passages@)),
            #[trigger] r@[s].passages@[i].canon,
            r@[s].passages@[i].book@,
        ),
{
    let old_testament = old_testament_mastery();
    let new_testament = new_testament_mastery();
    let book_of_mormon = book_of_mormon_mastery();
    let doctrine_and_covenants = doctrine_and_covenants_mastery();
    let mut all: Vec<StudyPassage> = Vec::new();
    append_passages(&mut all, &old_testament.passages);
    append_passages(&mut all, &new_testament.passages);
    append_passages(&mut all, &book_of_mormon.passages);
    append_passages(&mut all, &doctrine_and_covenants.passages);
    assert(passages_view(Seq::<StudyPassage>::empty()) =~= Seq::<PassageView>::empty());
    let ghost pa = passages_view(old_testament.passages@);
    let ghost pb = passages_view(new_testament.passages@);
    let ghost pc = passages_view(book_of_mormon.passages@);
    let ghost pd = passages_view(doctrine_and_covenants.passages@);
    assert(Seq::<PassageView>::empty() + pa =~= pa);
    let everything = StudySet {
        id: String::from_str("doctrinal-mastery-all"),
        name: String::from_str("All Doctrinal Mastery"),
        passages: all,
        guess_scope: StudyGuessScope::AllStandardWorks,
        prompt_policy: PromptPolicy::WholePassage,
    };
    let r = vec![everything, old_testament, new_testament, book_of_mormon, doctrine_and_covenants];
    assert forall|s: int, i: int| 0 <= s < 5 && 0 <= i < r@[s].passages@.len()
        implies passage_well_formed(#[trigger] r@[s].passages@[i]@) by {
        if s == 0 {
            let all_view = passages_view(r@[0].passages@);
            assert(all_view[i] == r@[0].passages@[i]@);
            let n1 = pa.len() as int;
            let n2 = n1 + pb.len();
            let n3 = n2 + pc.len();
            assert(all_view == pa + pb + pc + pd);
            assert(all_view.len() == n3 + pd.len());
            if i < n1 {
                assert(all_view[i] == pa[i]);
                assert(pa[i] == r@[1].passages@[i]@);
            } else if i < n2 {
                assert(all_view[i] == pb[i - n1]);
                assert(pb[i - n1] == r@[2].passages@[i - n1]@);
            } else if i < n3 {
                assert(all_view[i] == pc[i - n2]);
                assert(pc[i - n2] == r@[3].passages@[i - n2]@);
            } else {
                assert(all_view[i] == pd[i - n3]);
                assert(pd[i - n3] == r@[4].passages@[i - n3]@);
            }
        }
    }
    proof {
        lemma_mastery_sets_no_repeats();
        lemma_old_testament_mastery_set_covered();
        lemma_doctrine_and_covenants_mastery_set_covered();
        lemma_resolved_scope_covers(r@[0].guess_scope, passages_view(r@[0].passages@));
        lemma_resolved_scope_covers(r@[2].guess_scope, pb);
        lemma_resolved_scope_covers(r@[3].guess_scope, pc);
        assert forall|s: int, i: int| 0 <= s < 5 && 0 <= i < r@[s].passages@.len() implies scope_includes_book(
            resolved_scope_spec(r@[s].guess_scope, passages_view(r@[s].passages@)),
            #[trigger] r@[s].passages@[i].canon,
            r@[s].passages@[i].book@,
        ) by {
            let v = passages_view(r@[s].passages@);
            assert(v[i] == r@[s].passages@[i]@);
        }
    }
    r
}

} // verus!
