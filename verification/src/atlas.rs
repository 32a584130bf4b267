use vstd::prelude::*;

use crate::text::str_equal;
use crate::scriptures::{books_view, BookInfo, Canon};
use crate::study_sets::{
    passages_view, range_passage, PassageView, PromptPolicy, StudyGuessScope, StudyPassage, StudySet,
};

verus! {

/// What kind of thread an atlas layer follows.
#[derive(Clone, Copy, Debug, PartialEq, Eq, Structural)]
pub enum AtlasCategory {
    Person,
    Narrative,
    Event,
    Teaching,
}

pub open spec fn atlas_category_label(c: AtlasCategory) -> Seq<char> {
    match c {
        AtlasCategory::Person => "People"@,
        AtlasCategory::Narrative => "Narratives"@,
        AtlasCategory::Event => "Events"@,
        AtlasCategory::Teaching => "Teachings"@,
    }
}

impl AtlasCategory {
    pub const ALL: [AtlasCategory; 4] = [AtlasCategory::Person, AtlasCategory::Narrative, AtlasCategory::Event, AtlasCategory::Teaching];

    pub fn label(self) -> (r: &'static str)
        ensures
            r@ == atlas_category_label(self),
    {
        match self {
            AtlasCategory::Person => "People",
            AtlasCategory::Narrative => "Narratives",
            AtlasCategory::Event => "Events",
            AtlasCategory::Teaching => "Teachings",
        }
    }
}

/// A run of chapters `start..=end` of one book, with a note on what happens there.
#[derive(Clone, Copy, Debug, PartialEq, Eq)]
pub struct AtlasSpan {
    pub book: &'static str,
    pub start: u16,
    pub end: u16,
    pub note: &'static str,
}

pub struct SpanView {
    pub book: Seq<char>,
    pub start: u16,
    pub end: u16,
    pub note: Seq<char>,
}

impl View for AtlasSpan {
    type V = SpanView;

    open spec fn view(&self) -> SpanView {
        SpanView { book: self.book@, start: self.start, end: self.end, note: self.note@ }
    }
}

pub open spec fn span_includes(s: SpanView, book: Seq<char>, chapter: u16) -> bool {
    s.book == book && s.start <= chapter && chapter <= s.end
}

impl AtlasSpan {
    pub fn includes(self, book: &str, chapter: u16) -> (r: bool)
        ensures
            r == span_includes(self@, book@, chapter),
    {
        str_equal(self.book, book) && self.start <= chapter && chapter <= self.end
    }
}

/// A thread through the record: a person, narrative, event or teaching and the chapters it spans.
#[derive(Clone, Copy, Debug, PartialEq, Eq)]
pub struct AtlasLayer {
    pub id: &'static str,
    pub name: &'static str,
    pub category: AtlasCategory,
    pub tone: &'static str,
    pub summary: &'static str,
    pub spans: &'static [AtlasSpan],
}

pub struct LayerView {
    pub id: Seq<char>,
    pub name: Seq<char>,
    pub category: AtlasCategory,
    pub tone: Seq<char>,
    pub summary: Seq<char>,
    pub spans: Seq<SpanView>,
}

pub open spec fn spans_view(s: Seq<AtlasSpan>) -> Seq<SpanView> {
    s.map_values(|x: AtlasSpan| x@)
}

impl View for AtlasLayer {
    type V = LayerView;

    open spec fn view(&self) -> LayerView {
        LayerView {
            id: self.id@,
            name: self.name@,
            category: self.category,
            tone: self.tone@,
            summary: self.summary@,
            spans: spans_view(self.spans@),
        }
    }
}

/// The position of the first span that includes a chapter, or -1.
pub open spec fn first_span_including(spans: Seq<SpanView>, book: Seq<char>, chapter: u16) -> int
    decreases spans.len(),
{
    if spans.len() == 0 {
        -1
    } else if span_includes(spans[0], book, chapter) {
        0
    } else {
        let rest = first_span_including(spans.drop_first(), book, chapter);
        if rest == -1 { -1 } else { rest + 1 }
    }
}

impl AtlasLayer {
    /// The first span of this layer that includes a chapter.
    pub fn span_for(self, book: &str, chapter: u16) -> (r: Option<AtlasSpan>)
        ensures
            match r {
                Some(s) => first_span_including(self@.spans, book@, chapter) != -1
                    && s@ == self@.spans[first_span_including(self@.spans, book@, chapter)],
                None => first_span_including(self@.spans, book@, chapter) == -1,
            },
    {
        let ghost all = self@.spans;
        let mut i: usize = 0;
        assert(all.skip(0) =~= all);
        while i < self.spans.len()
            invariant
                i <= self.spans.len(),
                all == spans_view(self.spans@),
                first_span_including(all.skip(i as int), book@, chapter) == -1 ==> first_span_including(all, book@, chapter) == -1,
                first_span_including(all.skip(i as int), book@, chapter) != -1 ==> first_span_including(all, book@, chapter) == first_span_including(all.skip(i as int), book@, chapter) + i,
            decreases self.spans.len() - i,
        {
            let ghost rest = all.skip(i as int);
            assert(rest[0] == self.spans@[i as int]@);
            assert(rest.drop_first() =~= all.skip(i + 1));
            if self.spans[i].includes(book, chapter) {
                return Some(self.spans[i]);
            }
            assert(!span_includes(rest[0], book@, chapter));
            proof { lemma_first_span_bound(rest.drop_first(), book@, chapter); }
            assert(first_span_including(rest, book@, chapter) == {
                let r2 = first_span_including(rest.drop_first(), book@, chapter);
                if r2 == -1 { -1 } else { r2 + 1 }
            });
            i = i + 1;
        }
        None
    }
}

/// The dating of a book.
#[derive(Clone, Copy, Debug, PartialEq, Eq)]
pub struct BookChronology {
    pub dates: &'static str,
    pub note: &'static str,
}

/// A period of the record, starting at a book.
#[derive(Clone, Copy, Debug, PartialEq, Eq)]
pub struct AtlasEra {
    pub starts_at: &'static str,
    pub name: &'static str,
}

/// The periods of the record, in order: the book each starts at and its name.
pub open spec fn atlas_eras() -> Seq<(Seq<char>, Seq<char>)> {
    seq![
        ("1 Nephi"@, "Lehi's departure and the small plates"@),
        ("Mosiah"@, "The peoples gather in Zarahemla"@),
        ("Alma"@, "The reign of the judges"@),
        ("3 Nephi"@, "The coming and ministry of Christ"@),
        ("4 Nephi"@, "Generations of peace"@),
        ("Mormon"@, "The final Nephite generations"@),
        ("Ether"@, "The Jaredite record"@),
    ]
}

pub open spec fn eras_view(v: Seq<AtlasEra>) -> Seq<(Seq<char>, Seq<char>)> {
    v.map_values(|e: AtlasEra| (e.starts_at@, e.name@))
}

/// The periods of the record, in order.
pub fn eras() -> (r: Vec<AtlasEra>)
    ensures
        eras_view(r@) == atlas_eras(),
{
    let r = vec![
        AtlasEra { starts_at: "1 Nephi", name: "Lehi's departure and the small plates" },
        AtlasEra { starts_at: "Mosiah", name: "The peoples gather in Zarahemla" },
        AtlasEra { starts_at: "Alma", name: "The reign of the judges" },
        AtlasEra { starts_at: "3 Nephi", name: "The coming and ministry of Christ" },
        AtlasEra { starts_at: "4 Nephi", name: "Generations of peace" },
        AtlasEra { starts_at: "Mormon", name: "The final Nephite generations" },
        AtlasEra { starts_at: "Ether", name: "The Jaredite record" },
    ];
    assert(eras_view(r@) =~= atlas_eras());
    r
}

/// The position of the first era starting at a book, or -1.
pub open spec fn first_era_at(eras: Seq<(Seq<char>, Seq<char>)>, book: Seq<char>) -> int
    decreases eras.len(),
{
    if eras.len() == 0 {
        -1
    } else if eras[0].0 == book {
        0
    } else {
        let rest = first_era_at(eras.drop_first(), book);
        if rest == -1 { -1 } else { rest + 1 }
    }
}

/// The era that starts at a book.
pub fn era_starting_at(book: &str) -> (r: Option<AtlasEra>)
    ensures
        match r {
            Some(e) => first_era_at(atlas_eras(), book@) != -1
                && (e.starts_at@, e.name@) == atlas_eras()[first_era_at(atlas_eras(), book@)],
            None => first_era_at(atlas_eras(), book@) == -1,
        },
{
    let all = eras();
    let ghost v = eras_view(all@);
    let mut i: usize = 0;
    assert(v.skip(0) =~= v);
    while i < all.len()
        invariant
            i <= all.len(),
            v == eras_view(all@),
            v == atlas_eras(),
            first_era_at(v.skip(i as int), book@) == -1 ==> first_era_at(v, book@) == -1,
            first_era_at(v.skip(i as int), book@) != -1 ==> first_era_at(v, book@) == first_era_at(v.skip(i as int), book@) + i,
        decreases all.len() - i,
    {
        let ghost rest = v.skip(i as int);
        assert(rest[0] == (all@[i as int].starts_at@, all@[i as int].name@));
        assert(rest.drop_first() =~= v.skip(i + 1));
        if str_equal(all[i].starts_at, book) {
            return Some(all[i]);
        }
        assert(rest[0].0 != book@);
        proof { lemma_first_era_bound(rest.drop_first(), book@); }
        assert(first_era_at(rest, book@) == {
            let r2 = first_era_at(rest.drop_first(), book@);
            if r2 == -1 { -1 } else { r2 + 1 }
        });
        i = i + 1;
    }
    None
}

/// The dates and a note for each book of the Book of Mormon.
pub open spec fn chronology_spec(book: Seq<char>) -> Option<(Seq<char>, Seq<char>)> {
    if book == "1 Nephi"@ {
        Some(("about 600-570 BC"@, "Jerusalem to the promised land"@))
    } else if book == "2 Nephi"@ {
        Some(("about 588-545 BC"@, "Lehi's final teachings and Nephi's record"@))
    } else if book == "Jacob"@ {
        Some(("about 544-421 BC"@, "Jacob and Enos receive the small plates"@))
    } else if book == "Enos"@ {
        Some(("about 420 BC"@, "Enos's ministry"@))
    } else if book == "Jarom"@ {
        Some(("about 399-361 BC"@, "Nephite preservation and conflict"@))
    } else if book == "Omni"@ {
        Some(("about 323-130 BC"@, "Several keepers of the small plates"@))
    } else if book == "Words of Mormon"@ {
        Some(("about AD 385"@, "Mormon's editorial bridge"@))
    } else if book == "Mosiah"@ {
        Some(("about 130-91 BC"@, "Kingship ends in Zarahemla"@))
    } else if book == "Alma"@ {
        Some(("about 91-52 BC"@, "The first thirty-nine years of the judges"@))
    } else if book == "Helaman"@ {
        Some(("about 52-1 BC"@, "The later reign of the judges"@))
    } else if book == "3 Nephi"@ {
        Some(("AD 1-35"@, "Signs, upheaval, and Christ's ministry"@))
    } else if book == "4 Nephi"@ {
        Some(("about AD 36-321"@, "Peace, prosperity, and division"@))
    } else if book == "Mormon"@ {
        Some(("about AD 322-385"@, "The final wars and Mormon's record"@))
    } else if book == "Ether"@ {
        Some(("ancient; before 600 BC"@, "Jaredite history abridged by Moroni"@))
    } else if book == "Moroni"@ {
        Some(("about AD 400-421"@, "Moroni's final additions"@))
    } else {
        None
    }
}

pub fn book_chronology(book: &str) -> (r: Option<BookChronology>)
    ensures
        match r {
            Some(c) => chronology_spec(book@) == Some((c.dates@, c.note@)),
            None => chronology_spec(book@) is None,
        },
{
    if str_equal(book, "1 Nephi") {
        Some(BookChronology { dates: "about 600-570 BC", note: "Jerusalem to the promised land" })
    } else if str_equal(book, "2 Nephi") {
        Some(BookChronology { dates: "about 588-545 BC", note: "Lehi's final teachings and Nephi's record" })
    } else if str_equal(book, "Jacob") {
        Some(BookChronology { dates: "about 544-421 BC", note: "Jacob and Enos receive the small plates" })
    } else if str_equal(book, "Enos") {
        Some(BookChronology { dates: "about 420 BC", note: "Enos's ministry" })
    } else if str_equal(book, "Jarom") {
        Some(BookChronology { dates: "about 399-361 BC", note: "Nephite preservation and conflict" })
    } else if str_equal(book, "Omni") {
        Some(BookChronology { dates: "about 323-130 BC", note: "Several keepers of the small plates" })
    } else if str_equal(book, "Words of Mormon") {
        Some(BookChronology { dates: "about AD 385", note: "Mormon's editorial bridge" })
    } else if str_equal(book, "Mosiah") {
        Some(BookChronology { dates: "about 130-91 BC", note: "Kingship ends in Zarahemla" })
    } else if str_equal(book, "Alma") {
        Some(BookChronology { dates: "about 91-52 BC", note: "The first thirty-nine years of the judges" })
    } else if str_equal(book, "Helaman") {
        Some(BookChronology { dates: "about 52-1 BC", note: "The later reign of the judges" })
    } else if str_equal(book, "3 Nephi") {
        Some(BookChronology { dates: "AD 1-35", note: "Signs, upheaval, and Christ's ministry" })
    } else if str_equal(book, "4 Nephi") {
        Some(BookChronology { dates: "about AD 36-321", note: "Peace, prosperity, and division" })
    } else if str_equal(book, "Mormon") {
        Some(BookChronology { dates: "about AD 322-385", note: "The final wars and Mormon's record" })
    } else if str_equal(book, "Ether") {
        Some(BookChronology { dates: "ancient; before 600 BC", note: "Jaredite history abridged by Moroni" })
    } else if str_equal(book, "Moroni") {
        Some(BookChronology { dates: "about AD 400-421", note: "Moroni's final additions" })
    } else {
        None
    }
}

/// Every atlas layer, in display order.
pub open spec fn atlas_layers() -> Seq<LayerView> {
    seq![
        LayerView {
            id: "lehi-journey"@,
            name: "Lehi's journey"@,
            category: AtlasCategory::Narrative,
            tone: "green"@,
            summary: "From Jerusalem through the wilderness and across the sea."@,
            spans: seq![SpanView { book: "1 Nephi"@, start: 1, end: 18, note: "Lehi's family leaves Jerusalem, crosses the wilderness, builds the ship, and reaches the promised land (1 Nephi 1-18)."@ }],
        },
        LayerView {
            id: "king-benjamin"@,
            name: "King Benjamin"@,
            category: AtlasCategory::Person,
            tone: "gold"@,
            summary: "The succession, temple address, covenant, and census."@,
            spans: seq![SpanView { book: "Mosiah"@, start: 1, end: 6, note: "King Benjamin transfers the kingdom and teaches his people at the temple (Mosiah 1-6)."@ }],
        },
        LayerView {
            id: "abinadi"@,
            name: "Abinadi"@,
            category: AtlasCategory::Person,
            tone: "red"@,
            summary: "Abinadi's confrontation with Noah and testimony of Christ."@,
            spans: seq![SpanView { book: "Mosiah"@, start: 11, end: 17, note: "Abinadi confronts King Noah, teaches of Christ, and seals his testimony with his life (Mosiah 11-17)."@ }],
        },
        LayerView {
            id: "alma-younger"@,
            name: "Alma the Younger"@,
            category: AtlasCategory::Person,
            tone: "teal"@,
            summary: "Conversion, judgment seat, reforming ministry, and counsel."@,
            spans: seq![SpanView { book: "Mosiah"@, start: 27, end: 29, note: "Alma the Younger is converted and begins his ministry as the reign of the judges begins (Mosiah 27-29)."@ }, SpanView { book: "Alma"@, start: 1, end: 45, note: "Alma serves as chief judge and high priest, leads reforming missions, and counsels his sons (Alma 1-45)."@ }],
        },
        LayerView {
            id: "sons-mosiah"@,
            name: "Sons of Mosiah"@,
            category: AtlasCategory::Narrative,
            tone: "blue"@,
            summary: "Conversion and the long mission among the Lamanites."@,
            spans: seq![SpanView { book: "Mosiah"@, start: 27, end: 28, note: "The sons of Mosiah are converted and depart to teach the Lamanites (Mosiah 27-28)."@ }, SpanView { book: "Alma"@, start: 17, end: 27, note: "Ammon and his brothers teach among the Lamanites and gather the people of Anti-Nephi-Lehi (Alma 17-27)."@ }],
        },
        LayerView {
            id: "captain-moroni"@,
            name: "Captain Moroni"@,
            category: AtlasCategory::Person,
            tone: "orange"@,
            summary: "The title of liberty and the Nephite wars."@,
            spans: seq![SpanView { book: "Alma"@, start: 43, end: 62, note: "Captain Moroni defends the Nephites through the major wars of the reign of the judges (Alma 43-62)."@ }],
        },
        LayerView {
            id: "samuel"@,
            name: "Samuel the Lamanite"@,
            category: AtlasCategory::Person,
            tone: "violet"@,
            summary: "Prophecies and signs delivered from the wall."@,
            spans: seq![SpanView { book: "Helaman"@, start: 13, end: 16, note: "Samuel the Lamanite prophesies from the wall and gives signs of Christ's birth and death (Helaman 13-16)."@ }],
        },
        LayerView {
            id: "christ-ministry"@,
            name: "Christ in Bountiful"@,
            category: AtlasCategory::Event,
            tone: "yellow"@,
            summary: "The signs of Christ's death and his ministry in the Americas."@,
            spans: seq![SpanView { book: "3 Nephi"@, start: 8, end: 28, note: "Destruction marks Christ's death, and the risen Savior ministers among the people at Bountiful (3 Nephi 8-28)."@ }],
        },
        LayerView {
            id: "jaredite-record"@,
            name: "Jaredite record"@,
            category: AtlasCategory::Narrative,
            tone: "cyan"@,
            summary: "The complete rise and fall of the Jaredite civilization."@,
            spans: seq![SpanView { book: "Ether"@, start: 1, end: 15, note: "Moroni's abridgment follows the Jaredite journey, kingdoms, prophets, and final destruction (Ether 1-15)."@ }],
        },
        LayerView {
            id: "nephite-end"@,
            name: "End of the Nephites"@,
            category: AtlasCategory::Event,
            tone: "rose"@,
            summary: "Mormon's account of the final wars and collapse."@,
            spans: seq![SpanView { book: "Mormon"@, start: 1, end: 7, note: "Mormon leads and records the final generations of Nephite civilization through Cumorah (Mormon 1-7)."@ }, SpanView { book: "Moroni"@, start: 9, end: 9, note: "Mormon's final letter describes the collapse surrounding him (Moroni 9)."@ }],
        },
        LayerView {
            id: "nephi-ministry"@,
            name: "Nephi's ministry"@,
            category: AtlasCategory::Person,
            tone: "cyan"@,
            summary: "Nephi's visions, leadership, teaching, and final testimony."@,
            spans: seq![SpanView { book: "1 Nephi"@, start: 1, end: 22, note: "Nephi records his family's journey, visions, conflicts, and arrival in the promised land (1 Nephi 1-22)."@ }, SpanView { book: "2 Nephi"@, start: 1, end: 33, note: "Nephi preserves Lehi's final teachings, establishes a new community, and closes his record with testimony of Christ (2 Nephi 1-33)."@ }],
        },
        LayerView {
            id: "jacob-ministry"@,
            name: "Jacob's ministry"@,
            category: AtlasCategory::Person,
            tone: "violet"@,
            summary: "Jacob's sermons, stewardship, and defense of the faith."@,
            spans: seq![SpanView { book: "2 Nephi"@, start: 6, end: 10, note: "Jacob teaches from Isaiah and testifies of the Atonement and the gathering of Israel (2 Nephi 6-10)."@ }, SpanView { book: "Jacob"@, start: 1, end: 7, note: "Jacob confronts pride and immorality, teaches the allegory of the olive tree, and faces Sherem (Jacob 1-7)."@ }],
        },
        LayerView {
            id: "people-zeniff"@,
            name: "People of Zeniff"@,
            category: AtlasCategory::Narrative,
            tone: "orange"@,
            summary: "The colony in Lehi-Nephi, its bondage, and deliverance."@,
            spans: seq![SpanView { book: "Mosiah"@, start: 7, end: 24, note: "The record of Zeniff's colony follows Limhi's people and Alma's people through bondage and deliverance (Mosiah 7-24)."@ }],
        },
        LayerView {
            id: "people-ammon"@,
            name: "People of Ammon"@,
            category: AtlasCategory::Narrative,
            tone: "green"@,
            summary: "A covenant of peace carried into the next generation."@,
            spans: seq![SpanView { book: "Alma"@, start: 23, end: 27, note: "Converted Lamanites covenant against bloodshed and are established in Jershon as the people of Ammon (Alma 23-27)."@ }, SpanView { book: "Alma"@, start: 53, end: 58, note: "Their sons enter the war under Helaman and become known for faith and courage (Alma 53-58)."@ }],
        },
        LayerView {
            id: "stripling-warriors"@,
            name: "Stripling warriors"@,
            category: AtlasCategory::Narrative,
            tone: "gold"@,
            summary: "Helaman's young army and the faith that sustains them."@,
            spans: seq![SpanView { book: "Alma"@, start: 53, end: 53, note: "Two thousand sons of the people of Ammon covenant to defend the Nephites (Alma 53)."@ }, SpanView { book: "Alma"@, start: 56, end: 58, note: "Helaman recounts the young warriors' battles, faith, wounds, and preservation (Alma 56-58)."@ }],
        },
        LayerView {
            id: "nephi-lehi"@,
            name: "Nephi and Lehi"@,
            category: AtlasCategory::Person,
            tone: "blue"@,
            summary: "Missionary work, prophecy, and the sealing power."@,
            spans: seq![SpanView { book: "Helaman"@, start: 3, end: 12, note: "Nephi and Lehi preach amid war and secret combinations; Nephi later receives the sealing power (Helaman 3-12)."@ }],
        },
        LayerView {
            id: "gadianton-robbers"@,
            name: "Gadianton robbers"@,
            category: AtlasCategory::Narrative,
            tone: "red"@,
            summary: "The growth of secret combinations and their consequences."@,
            spans: seq![SpanView { book: "Helaman"@, start: 1, end: 11, note: "Secret combinations spread through Nephite government and society (Helaman 1-11)."@ }, SpanView { book: "3 Nephi"@, start: 1, end: 4, note: "The gathered Nephites and Lamanites defeat the Gadianton armies (3 Nephi 1-4)."@ }, SpanView { book: "3 Nephi"@, start: 6, end: 7, note: "Prosperity, division, and secret combinations help collapse the government (3 Nephi 6-7)."@ }],
        },
        LayerView {
            id: "isaiah-passages"@,
            name: "Isaiah passages"@,
            category: AtlasCategory::Teaching,
            tone: "violet"@,
            summary: "Isaiah on the Messiah, covenant Israel, and latter days."@,
            spans: seq![SpanView { book: "1 Nephi"@, start: 20, end: 21, note: "Nephi includes Isaiah's words about covenant deliverance and the gathering of Israel (1 Nephi 20-21)."@ }, SpanView { book: "2 Nephi"@, start: 6, end: 8, note: "Jacob uses Isaiah to teach of the Messiah and the gathering of Israel (2 Nephi 6-8)."@ }, SpanView { book: "2 Nephi"@, start: 12, end: 24, note: "Nephi records an extended block of Isaiah and then explains its latter-day fulfillment (2 Nephi 12-24)."@ }],
        },
        LayerView {
            id: "doctrine-christ"@,
            name: "Doctrine of Christ"@,
            category: AtlasCategory::Teaching,
            tone: "teal"@,
            summary: "The covenant path in Nephi's concluding teachings."@,
            spans: seq![SpanView { book: "2 Nephi"@, start: 31, end: 33, note: "Nephi teaches faith in Christ, repentance, baptism, the Holy Ghost, and enduring to the end (2 Nephi 31-33)."@ }],
        },
        LayerView {
            id: "alma-teachings"@,
            name: "Alma's major teachings"@,
            category: AtlasCategory::Teaching,
            tone: "blue"@,
            summary: "Spiritual rebirth, faith, redemption, and resurrection."@,
            spans: seq![SpanView { book: "Alma"@, start: 5, end: 7, note: "Alma calls the people of Zarahemla and Gideon to spiritual rebirth and faith in Christ (Alma 5-7)."@ }, SpanView { book: "Alma"@, start: 12, end: 13, note: "Alma and Amulek teach Zeezrom about redemption, resurrection, judgment, and priesthood (Alma 12-13)."@ }, SpanView { book: "Alma"@, start: 32, end: 34, note: "Alma and Amulek teach the Zoramites about faith, the word, prayer, and the Atonement (Alma 32-34)."@ }, SpanView { book: "Alma"@, start: 36, end: 42, note: "Alma recounts his conversion and counsels his sons about scripture, agency, resurrection, and justice (Alma 36-42)."@ }],
        },
        LayerView {
            id: "signs-christ"@,
            name: "Signs of Christ"@,
            category: AtlasCategory::Event,
            tone: "yellow"@,
            summary: "The promised signs surrounding Christ's birth and death."@,
            spans: seq![SpanView { book: "3 Nephi"@, start: 1, end: 1, note: "The night without darkness fulfills Samuel's sign of Christ's birth (3 Nephi 1)."@ }, SpanView { book: "3 Nephi"@, start: 8, end: 10, note: "Destruction and darkness mark Christ's death, followed by his voice inviting the survivors to return (3 Nephi 8-10)."@ }],
        },
        LayerView {
            id: "fourth-nephi-peace"@,
            name: "Fourth Nephi peace"@,
            category: AtlasCategory::Event,
            tone: "green"@,
            summary: "A Zion society followed by renewed division."@,
            spans: seq![SpanView { book: "4 Nephi"@, start: 1, end: 1, note: "Christ's disciples establish generations of unity and peace before pride and division return (4 Nephi 1)."@ }],
        },
        LayerView {
            id: "enos"@,
            name: "Enos"@,
            category: AtlasCategory::Person,
            tone: "gold"@,
            summary: "A prayer of repentance, intercession, and covenant assurance."@,
            spans: seq![SpanView { book: "Enos"@, start: 1, end: 1, note: "Enos prays for forgiveness, then for the Nephites and Lamanites, and receives covenant assurances (Enos 1)."@ }],
        },
        LayerView {
            id: "alma-elder"@,
            name: "Alma the Elder"@,
            category: AtlasCategory::Person,
            tone: "green"@,
            summary: "From Abinadi's court to leadership of the church."@,
            spans: seq![SpanView { book: "Mosiah"@, start: 17, end: 18, note: "Alma believes Abinadi, records his words, and organizes the church at the Waters of Mormon (Mosiah 17-18)."@ }, SpanView { book: "Mosiah"@, start: 23, end: 26, note: "Alma's people are delivered from bondage, join Mosiah's people, and establish churches throughout Zarahemla (Mosiah 23-26)."@ }],
        },
        LayerView {
            id: "amulek"@,
            name: "Amulek"@,
            category: AtlasCategory::Person,
            tone: "orange"@,
            summary: "Conversion and ministry beside Alma in two major missions."@,
            spans: seq![SpanView { book: "Alma"@, start: 8, end: 16, note: "Amulek joins Alma in Ammonihah, testifies of his conversion, and teaches through persecution and deliverance (Alma 8-16)."@ }, SpanView { book: "Alma"@, start: 31, end: 35, note: "Amulek accompanies the mission to the Zoramites and teaches them about prayer and Christ's Atonement (Alma 31-35)."@ }],
        },
        LayerView {
            id: "helaman"@,
            name: "Helaman"@,
            category: AtlasCategory::Person,
            tone: "blue"@,
            summary: "Record keeper, high priest, and leader of the young warriors."@,
            spans: seq![SpanView { book: "Alma"@, start: 36, end: 37, note: "Alma recounts his conversion to Helaman and entrusts him with the sacred records (Alma 36-37)."@ }, SpanView { book: "Alma"@, start: 45, end: 45, note: "Helaman succeeds Alma in the ministry and preserves his father's prophecy (Alma 45)."@ }, SpanView { book: "Alma"@, start: 53, end: 58, note: "Helaman leads the sons of the people of Ammon and reports their campaigns to Moroni (Alma 53-58)."@ }],
        },
        LayerView {
            id: "mormon-ministry"@,
            name: "Mormon"@,
            category: AtlasCategory::Person,
            tone: "teal"@,
            summary: "Prophet, historian, and witness of his people's fall."@,
            spans: seq![SpanView { book: "Mormon"@, start: 1, end: 7, note: "Mormon becomes the record keeper and military leader, preaches repentance, and witnesses the destruction at Cumorah (Mormon 1-7)."@ }],
        },
        LayerView {
            id: "moroni-witness"@,
            name: "Moroni"@,
            category: AtlasCategory::Person,
            tone: "violet"@,
            summary: "The final record keeper's witness to future readers."@,
            spans: seq![SpanView { book: "Mormon"@, start: 8, end: 9, note: "Moroni completes his father's record and addresses future readers who will receive it (Mormon 8-9)."@ }, SpanView { book: "Ether"@, start: 12, end: 12, note: "Moroni pauses the Jaredite account to teach about faith, hope, weakness, and grace (Ether 12)."@ }, SpanView { book: "Moroni"@, start: 1, end: 10, note: "Moroni preserves ordinances, teachings, letters, and his final invitation to seek a witness from God (Moroni 1-10)."@ }],
        },
        LayerView {
            id: "brass-plates"@,
            name: "Obtaining the brass plates"@,
            category: AtlasCategory::Narrative,
            tone: "cyan"@,
            summary: "The return to Jerusalem and preservation of scripture."@,
            spans: seq![SpanView { book: "1 Nephi"@, start: 3, end: 5, note: "Lehi's sons return to Jerusalem, obtain the brass plates from Laban, and bring them into the wilderness (1 Nephi 3-5)."@ }],
        },
        LayerView {
            id: "waters-mormon"@,
            name: "Waters of Mormon"@,
            category: AtlasCategory::Event,
            tone: "green"@,
            summary: "A baptismal covenant and the beginning of a church community."@,
            spans: seq![SpanView { book: "Mosiah"@, start: 18, end: 18, note: "Alma teaches the baptismal covenant and organizes the church at the Waters of Mormon (Mosiah 18)."@ }],
        },
        LayerView {
            id: "ammon-lamoni"@,
            name: "Ammon and Lamoni"@,
            category: AtlasCategory::Narrative,
            tone: "yellow"@,
            summary: "Service, conversion, and revelation in the land of Ishmael."@,
            spans: seq![SpanView { book: "Alma"@, start: 17, end: 20, note: "Ammon serves and teaches King Lamoni, whose household receives a witness of Christ (Alma 17-20)."@ }],
        },
        LayerView {
            id: "zoramite-mission"@,
            name: "Zoramite mission"@,
            category: AtlasCategory::Narrative,
            tone: "rose"@,
            summary: "The Rameumptom and teaching faith among the poor."@,
            spans: seq![SpanView { book: "Alma"@, start: 31, end: 35, note: "Alma and his companions encounter worship on the Rameumptom and teach the poor Zoramites faith in Christ (Alma 31-35)."@ }],
        },
        LayerView {
            id: "nephite-wars"@,
            name: "Nephite wars"@,
            category: AtlasCategory::Event,
            tone: "red"@,
            summary: "The extended military struggle late in the book of Alma."@,
            spans: seq![SpanView { book: "Alma"@, start: 43, end: 63, note: "A long sequence of wars includes the title of liberty, fortified cities, internal rebellion, and campaigns on two fronts (Alma 43-63)."@ }],
        },
        LayerView {
            id: "olive-tree"@,
            name: "Allegory of the olive tree"@,
            category: AtlasCategory::Teaching,
            tone: "green"@,
            summary: "Zenos's panorama of scattering, gathering, and covenant labor."@,
            spans: seq![SpanView { book: "Jacob"@, start: 5, end: 6, note: "Jacob records Zenos's allegory of the olive trees and invites Israel to labor with the Lord of the vineyard (Jacob 5-6)."@ }],
        },
        LayerView {
            id: "sermon-temple"@,
            name: "Sermon at the temple"@,
            category: AtlasCategory::Teaching,
            tone: "gold"@,
            summary: "Christ's higher law and pattern of discipleship."@,
            spans: seq![SpanView { book: "3 Nephi"@, start: 12, end: 14, note: "Christ teaches the people at Bountiful the higher law and the pattern of covenant discipleship (3 Nephi 12-14)."@ }],
        },
        LayerView {
            id: "gathering-israel"@,
            name: "Gathering of Israel"@,
            category: AtlasCategory::Teaching,
            tone: "cyan"@,
            summary: "Christ explains covenant Israel and the latter-day gathering."@,
            spans: seq![SpanView { book: "3 Nephi"@, start: 15, end: 16, note: "Christ identifies the people as other sheep and explains the gathering of covenant Israel (3 Nephi 15-16)."@ }, SpanView { book: "3 Nephi"@, start: 20, end: 22, note: "Christ teaches the covenant, gathering, and latter-day work using Isaiah and Micah (3 Nephi 20-22)."@ }],
        },
    ]
}

pub open spec fn layers_view(v: Seq<AtlasLayer>) -> Seq<LayerView> {
    v.map_values(|l: AtlasLayer| l@)
}

/// Every atlas layer, in display order.
pub fn layers() -> (r: Vec<AtlasLayer>)
    ensures
        layers_view(r@) == atlas_layers(),
{
    let r = vec![
        AtlasLayer {
            id: "lehi-journey",
            name: "Lehi's journey",
            category: AtlasCategory::Narrative,
            tone: "green",
            summary: "From Jerusalem through the wilderness and across the sea.",
            spans: &[AtlasSpan { book: "1 Nephi", start: 1, end: 18, note: "Lehi's family leaves Jerusalem, crosses the wilderness, builds the ship, and reaches the promised land (1 Nephi 1-18)." }],
        },
        AtlasLayer {
            id: "king-benjamin",
            name: "King Benjamin",
            category: AtlasCategory::Person,
            tone: "gold",
            summary: "The succession, temple address, covenant, and census.",
            spans: &[AtlasSpan { book: "Mosiah", start: 1, end: 6, note: "King Benjamin transfers the kingdom and teaches his people at the temple (Mosiah 1-6)." }],
        },
        AtlasLayer {
            id: "abinadi",
            name: "Abinadi",
            category: AtlasCategory::Person,
            tone: "red",
            summary: "Abinadi's confrontation with Noah and testimony of Christ.",
            spans: &[AtlasSpan { book: "Mosiah", start: 11, end: 17, note: "Abinadi confronts King Noah, teaches of Christ, and seals his testimony with his life (Mosiah 11-17)." }],
        },
        AtlasLayer {
            id: "alma-younger",
            name: "Alma the Younger",
            category: AtlasCategory::Person,
            tone: "teal",
            summary: "Conversion, judgment seat, reforming ministry, and counsel.",
            spans: &[AtlasSpan { book: "Mosiah", start: 27, end: 29, note: "Alma the Younger is converted and begins his ministry as the reign of the judges begins (Mosiah 27-29)." }, AtlasSpan { book: "Alma", start: 1, end: 45, note: "Alma serves as chief judge and high priest, leads reforming missions, and counsels his sons (Alma 1-45)." }],
        },
        AtlasLayer {
            id: "sons-mosiah",
            name: "Sons of Mosiah",
            category: AtlasCategory::Narrative,
            tone: "blue",
            summary: "Conversion and the long mission among the Lamanites.",
            spans: &[AtlasSpan { book: "Mosiah", start: 27, end: 28, note: "The sons of Mosiah are converted and depart to teach the Lamanites (Mosiah 27-28)." }, AtlasSpan { book: "Alma", start: 17, end: 27, note: "Ammon and his brothers teach among the Lamanites and gather the people of Anti-Nephi-Lehi (Alma 17-27)." }],
        },
        AtlasLayer {
            id: "captain-moroni",
            name: "Captain Moroni",
            category: AtlasCategory::Person,
            tone: "orange",
            summary: "The title of liberty and the Nephite wars.",
            spans: &[AtlasSpan { book: "Alma", start: 43, end: 62, note: "Captain Moroni defends the Nephites through the major wars of the reign of the judges (Alma 43-62)." }],
        },
        AtlasLayer {
            id: "samuel",
            name: "Samuel the Lamanite",
            category: AtlasCategory::Person,
            tone: "violet",
            summary: "Prophecies and signs delivered from the wall.",
            spans: &[AtlasSpan { book: "Helaman", start: 13, end: 16, note: "Samuel the Lamanite prophesies from the wall and gives signs of Christ's birth and death (Helaman 13-16)." }],
        },
        AtlasLayer {
            id: "christ-ministry",
            name: "Christ in Bountiful",
            category: AtlasCategory::Event,
            tone: "yellow",
            summary: "The signs of Christ's death and his ministry in the Americas.",
            spans: &[AtlasSpan { book: "3 Nephi", start: 8, end: 28, note: "Destruction marks Christ's death, and the risen Savior ministers among the people at Bountiful (3 Nephi 8-28)." }],
        },
        AtlasLayer {
            id: "jaredite-record",
            name: "Jaredite record",
            category: AtlasCategory::Narrative,
            tone: "cyan",
            summary: "The complete rise and fall of the Jaredite civilization.",
            spans: &[AtlasSpan { book: "Ether", start: 1, end: 15, note: "Moroni's abridgment follows the Jaredite journey, kingdoms, prophets, and final destruction (Ether 1-15)." }],
        },
        AtlasLayer {
            id: "nephite-end",
            name: "End of the Nephites",
            category: AtlasCategory::Event,
            tone: "rose",
            summary: "Mormon's account of the final wars and collapse.",
            spans: &[AtlasSpan { book: "Mormon", start: 1, end: 7, note: "Mormon leads and records the final generations of Nephite civilization through Cumorah (Mormon 1-7)." }, AtlasSpan { book: "Moroni", start: 9, end: 9, note: "Mormon's final letter describes the collapse surrounding him (Moroni 9)." }],
        },
        AtlasLayer {
            id: "nephi-ministry",
            name: "Nephi's ministry",
            category: AtlasCategory::Person,
            tone: "cyan",
            summary: "Nephi's visions, leadership, teaching, and final testimony.",
            spans: &[AtlasSpan { book: "1 Nephi", start: 1, end: 22, note: "Nephi records his family's journey, visions, conflicts, and arrival in the promised land (1 Nephi 1-22)." }, AtlasSpan { book: "2 Nephi", start: 1, end: 33, note: "Nephi preserves Lehi's final teachings, establishes a new community, and closes his record with testimony of Christ (2 Nephi 1-33)." }],
        },
        AtlasLayer {
            id: "jacob-ministry",
            name: "Jacob's ministry",
            category: AtlasCategory::Person,
            tone: "violet",
            summary: "Jacob's sermons, stewardship, and defense of the faith.",
            spans: &[AtlasSpan { book: "2 Nephi", start: 6, end: 10, note: "Jacob teaches from Isaiah and testifies of the Atonement and the gathering of Israel (2 Nephi 6-10)." }, AtlasSpan { book: "Jacob", start: 1, end: 7, note: "Jacob confronts pride and immorality, teaches the allegory of the olive tree, and faces Sherem (Jacob 1-7)." }],
        },
        AtlasLayer {
            id: "people-zeniff",
            name: "People of Zeniff",
            category: AtlasCategory::Narrative,
            tone: "orange",
            summary: "The colony in Lehi-Nephi, its bondage, and deliverance.",
            spans: &[AtlasSpan { book: "Mosiah", start: 7, end: 24, note: "The record of Zeniff's colony follows Limhi's people and Alma's people through bondage and deliverance (Mosiah 7-24)." }],
        },
        AtlasLayer {
            id: "people-ammon",
            name: "People of Ammon",
            category: AtlasCategory::Narrative,
            tone: "green",
            summary: "A covenant of peace carried into the next generation.",
            spans: &[AtlasSpan { book: "Alma", start: 23, end: 27, note: "Converted Lamanites covenant against bloodshed and are established in Jershon as the people of Ammon (Alma 23-27)." }, AtlasSpan { book: "Alma", start: 53, end: 58, note: "Their sons enter the war under Helaman and become known for faith and courage (Alma 53-58)." }],
        },
        AtlasLayer {
            id: "stripling-warriors",
            name: "Stripling warriors",
            category: AtlasCategory::Narrative,
            tone: "gold",
            summary: "Helaman's young army and the faith that sustains them.",
            spans: &[AtlasSpan { book: "Alma", start: 53, end: 53, note: "Two thousand sons of the people of Ammon covenant to defend the Nephites (Alma 53)." }, AtlasSpan { book: "Alma", start: 56, end: 58, note: "Helaman recounts the young warriors' battles, faith, wounds, and preservation (Alma 56-58)." }],
        },
        AtlasLayer {
            id: "nephi-lehi",
            name: "Nephi and Lehi",
            category: AtlasCategory::Person,
            tone: "blue",
            summary: "Missionary work, prophecy, and the sealing power.",
            spans: &[AtlasSpan { book: "Helaman", start: 3, end: 12, note: "Nephi and Lehi preach amid war and secret combinations; Nephi later receives the sealing power (Helaman 3-12)." }],
        },
        AtlasLayer {
            id: "gadianton-robbers",
            name: "Gadianton robbers",
            category: AtlasCategory::Narrative,
            tone: "red",
            summary: "The growth of secret combinations and their consequences.",
            spans: &[AtlasSpan { book: "Helaman", start: 1, end: 11, note: "Secret combinations spread through Nephite government and society (Helaman 1-11)." }, AtlasSpan { book: "3 Nephi", start: 1, end: 4, note: "The gathered Nephites and Lamanites defeat the Gadianton armies (3 Nephi 1-4)." }, AtlasSpan { book: "3 Nephi", start: 6, end: 7, note: "Prosperity, division, and secret combinations help collapse the government (3 Nephi 6-7)." }],
        },
        AtlasLayer {
            id: "isaiah-passages",
            name: "Isaiah passages",
            category: AtlasCategory::Teaching,
            tone: "violet",
            summary: "Isaiah on the Messiah, covenant Israel, and latter days.",
            spans: &[AtlasSpan { book: "1 Nephi", start: 20, end: 21, note: "Nephi includes Isaiah's words about covenant deliverance and the gathering of Israel (1 Nephi 20-21)." }, AtlasSpan { book: "2 Nephi", start: 6, end: 8, note: "Jacob uses Isaiah to teach of the Messiah and the gathering of Israel (2 Nephi 6-8)." }, AtlasSpan { book: "2 Nephi", start: 12, end: 24, note: "Nephi records an extended block of Isaiah and then explains its latter-day fulfillment (2 Nephi 12-24)." }],
        },
        AtlasLayer {
            id: "doctrine-christ",
            name: "Doctrine of Christ",
            category: AtlasCategory::Teaching,
            tone: "teal",
            summary: "The covenant path in Nephi's concluding teachings.",
            spans: &[AtlasSpan { book: "2 Nephi", start: 31, end: 33, note: "Nephi teaches faith in Christ, repentance, baptism, the Holy Ghost, and enduring to the end (2 Nephi 31-33)." }],
        },
        AtlasLayer {
            id: "alma-teachings",
            name: "Alma's major teachings",
            category: AtlasCategory::Teaching,
            tone: "blue",
            summary: "Spiritual rebirth, faith, redemption, and resurrection.",
            spans: &[AtlasSpan { book: "Alma", start: 5, end: 7, note: "Alma calls the people of Zarahemla and Gideon to spiritual rebirth and faith in Christ (Alma 5-7)." }, AtlasSpan { book: "Alma", start: 12, end: 13, note: "Alma and Amulek teach Zeezrom about redemption, resurrection, judgment, and priesthood (Alma 12-13)." }, AtlasSpan { book: "Alma", start: 32, end: 34, note: "Alma and Amulek teach the Zoramites about faith, the word, prayer, and the Atonement (Alma 32-34)." }, AtlasSpan { book: "Alma", start: 36, end: 42, note: "Alma recounts his conversion and counsels his sons about scripture, agency, resurrection, and justice (Alma 36-42)." }],
        },
        AtlasLayer {
            id: "signs-christ",
            name: "Signs of Christ",
            category: AtlasCategory::Event,
            tone: "yellow",
            summary: "The promised signs surrounding Christ's birth and death.",
            spans: &[AtlasSpan { book: "3 Nephi", start: 1, end: 1, note: "The night without darkness fulfills Samuel's sign of Christ's birth (3 Nephi 1)." }, AtlasSpan { book: "3 Nephi", start: 8, end: 10, note: "Destruction and darkness mark Christ's death, followed by his voice inviting the survivors to return (3 Nephi 8-10)." }],
        },
        AtlasLayer {
            id: "fourth-nephi-peace",
            name: "Fourth Nephi peace",
            category: AtlasCategory::Event,
            tone: "green",
            summary: "A Zion society followed by renewed division.",
            spans: &[AtlasSpan { book: "4 Nephi", start: 1, end: 1, note: "Christ's disciples establish generations of unity and peace before pride and division return (4 Nephi 1)." }],
        },
        AtlasLayer {
            id: "enos",
            name: "Enos",
            category: AtlasCategory::Person,
            tone: "gold",
            summary: "A prayer of repentance, intercession, and covenant assurance.",
            spans: &[AtlasSpan { book: "Enos", start: 1, end: 1, note: "Enos prays for forgiveness, then for the Nephites and Lamanites, and receives covenant assurances (Enos 1)." }],
        },
        AtlasLayer {
            id: "alma-elder",
            name: "Alma the Elder",
            category: AtlasCategory::Person,
            tone: "green",
            summary: "From Abinadi's court to leadership of the church.",
            spans: &[AtlasSpan { book: "Mosiah", start: 17, end: 18, note: "Alma believes Abinadi, records his words, and organizes the church at the Waters of Mormon (Mosiah 17-18)." }, AtlasSpan { book: "Mosiah", start: 23, end: 26, note: "Alma's people are delivered from bondage, join Mosiah's people, and establish churches throughout Zarahemla (Mosiah 23-26)." }],
        },
        AtlasLayer {
            id: "amulek",
            name: "Amulek",
            category: AtlasCategory::Person,
            tone: "orange",
            summary: "Conversion and ministry beside Alma in two major missions.",
            spans: &[AtlasSpan { book: "Alma", start: 8, end: 16, note: "Amulek joins Alma in Ammonihah, testifies of his conversion, and teaches through persecution and deliverance (Alma 8-16)." }, AtlasSpan { book: "Alma", start: 31, end: 35, note: "Amulek accompanies the mission to the Zoramites and teaches them about prayer and Christ's Atonement (Alma 31-35)." }],
        },
        AtlasLayer {
            id: "helaman",
            name: "Helaman",
            category: AtlasCategory::Person,
            tone: "blue",
            summary: "Record keeper, high priest, and leader of the young warriors.",
            spans: &[AtlasSpan { book: "Alma", start: 36, end: 37, note: "Alma recounts his conversion to Helaman and entrusts him with the sacred records (Alma 36-37)." }, AtlasSpan { book: "Alma", start: 45, end: 45, note: "Helaman succeeds Alma in the ministry and preserves his father's prophecy (Alma 45)." }, AtlasSpan { book: "Alma", start: 53, end: 58, note: "Helaman leads the sons of the people of Ammon and reports their campaigns to Moroni (Alma 53-58)." }],
        },
        AtlasLayer {
            id: "mormon-ministry",
            name: "Mormon",
            category: AtlasCategory::Person,
            tone: "teal",
            summary: "Prophet, historian, and witness of his people's fall.",
            spans: &[AtlasSpan { book: "Mormon", start: 1, end: 7, note: "Mormon becomes the record keeper and military leader, preaches repentance, and witnesses the destruction at Cumorah (Mormon 1-7)." }],
        },
        AtlasLayer {
            id: "moroni-witness",
            name: "Moroni",
            category: AtlasCategory::Person,
            tone: "violet",
            summary: "The final record keeper's witness to future readers.",
            spans: &[AtlasSpan { book: "Mormon", start: 8, end: 9, note: "Moroni completes his father's record and addresses future readers who will receive it (Mormon 8-9)." }, AtlasSpan { book: "Ether", start: 12, end: 12, note: "Moroni pauses the Jaredite account to teach about faith, hope, weakness, and grace (Ether 12)." }, AtlasSpan { book: "Moroni", start: 1, end: 10, note: "Moroni preserves ordinances, teachings, letters, and his final invitation to seek a witness from God (Moroni 1-10)." }],
        },
        AtlasLayer {
            id: "brass-plates",
            name: "Obtaining the brass plates",
            category: AtlasCategory::Narrative,
            tone: "cyan",
            summary: "The return to Jerusalem and preservation of scripture.",
            spans: &[AtlasSpan { book: "1 Nephi", start: 3, end: 5, note: "Lehi's sons return to Jerusalem, obtain the brass plates from Laban, and bring them into the wilderness (1 Nephi 3-5)." }],
        },
        AtlasLayer {
            id: "waters-mormon",
            name: "Waters of Mormon",
            category: AtlasCategory::Event,
            tone: "green",
            summary: "A baptismal covenant and the beginning of a church community.",
            spans: &[AtlasSpan { book: "Mosiah", start: 18, end: 18, note: "Alma teaches the baptismal covenant and organizes the church at the Waters of Mormon (Mosiah 18)." }],
        },
        AtlasLayer {
            id: "ammon-lamoni",
            name: "Ammon and Lamoni",
            category: AtlasCategory::Narrative,
            tone: "yellow",
            summary: "Service, conversion, and revelation in the land of Ishmael.",
            spans: &[AtlasSpan { book: "Alma", start: 17, end: 20, note: "Ammon serves and teaches King Lamoni, whose household receives a witness of Christ (Alma 17-20)." }],
        },
        AtlasLayer {
            id: "zoramite-mission",
            name: "Zoramite mission",
            category: AtlasCategory::Narrative,
            tone: "rose",
            summary: "The Rameumptom and teaching faith among the poor.",
            spans: &[AtlasSpan { book: "Alma", start: 31, end: 35, note: "Alma and his companions encounter worship on the Rameumptom and teach the poor Zoramites faith in Christ (Alma 31-35)." }],
        },
        AtlasLayer {
            id: "nephite-wars",
            name: "Nephite wars",
            category: AtlasCategory::Event,
            tone: "red",
            summary: "The extended military struggle late in the book of Alma.",
            spans: &[AtlasSpan { book: "Alma", start: 43, end: 63, note: "A long sequence of wars includes the title of liberty, fortified cities, internal rebellion, and campaigns on two fronts (Alma 43-63)." }],
        },
        AtlasLayer {
            id: "olive-tree",
            name: "Allegory of the olive tree",
            category: AtlasCategory::Teaching,
            tone: "green",
            summary: "Zenos's panorama of scattering, gathering, and covenant labor.",
            spans: &[AtlasSpan { book: "Jacob", start: 5, end: 6, note: "Jacob records Zenos's allegory of the olive trees and invites Israel to labor with the Lord of the vineyard (Jacob 5-6)." }],
        },
        AtlasLayer {
            id: "sermon-temple",
            name: "Sermon at the temple",
            category: AtlasCategory::Teaching,
            tone: "gold",
            summary: "Christ's higher law and pattern of discipleship.",
            spans: &[AtlasSpan { book: "3 Nephi", start: 12, end: 14, note: "Christ teaches the people at Bountiful the higher law and the pattern of covenant discipleship (3 Nephi 12-14)." }],
        },
        AtlasLayer {
            id: "gathering-israel",
            name: "Gathering of Israel",
            category: AtlasCategory::Teaching,
            tone: "cyan",
            summary: "Christ explains covenant Israel and the latter-day gathering.",
            spans: &[AtlasSpan { book: "3 Nephi", start: 15, end: 16, note: "Christ identifies the people as other sheep and explains the gathering of covenant Israel (3 Nephi 15-16)." }, AtlasSpan { book: "3 Nephi", start: 20, end: 22, note: "Christ teaches the covenant, gathering, and latter-day work using Isaiah and Micah (3 Nephi 20-22)." }],
        },
    ];
    proof {
        let v = layers_view(r@);
        let w = atlas_layers();
        assert forall|k: int| 0 <= k < w.len() implies v[k] == w[k] by {
            assert(v[k].spans =~= w[k].spans);
        }
        assert(v =~= w);
    }
    r
}

/// The position of the first layer with an id, or -1.
pub open spec fn first_layer_with_id(layers: Seq<LayerView>, id: Seq<char>) -> int
    decreases layers.len(),
{
    if layers.len() == 0 {
        -1
    } else if layers[0].id == id {
        0
    } else {
        let rest = first_layer_with_id(layers.drop_first(), id);
        if rest == -1 { -1 } else { rest + 1 }
    }
}

/// The layer with an id.
pub fn layer(id: &str) -> (r: Option<AtlasLayer>)
    ensures
        match r {
            Some(l) => first_layer_with_id(atlas_layers(), id@) != -1
                && l@ == atlas_layers()[first_layer_with_id(atlas_layers(), id@)],
            None => first_layer_with_id(atlas_layers(), id@) == -1,
        },
{
    let all = layers();
    let ghost v = layers_view(all@);
    let mut i: usize = 0;
    assert(v.skip(0) =~= v);
    while i < all.len()
        invariant
            i <= all.len(),
            v == layers_view(all@),
            v == atlas_layers(),
            first_layer_with_id(v.skip(i as int), id@) == -1 ==> first_layer_with_id(v, id@) == -1,
            first_layer_with_id(v.skip(i as int), id@) != -1 ==> first_layer_with_id(v, id@) == first_layer_with_id(v.skip(i as int), id@) + i,
        decreases all.len() - i,
    {
        let ghost rest = v.skip(i as int);
        assert(rest[0] == all@[i as int]@);
        assert(rest.drop_first() =~= v.skip(i + 1));
        if str_equal(all[i].id, id) {
            return Some(all[i]);
        }
        assert(rest[0].id != id@);
        proof { lemma_first_layer_bound(rest.drop_first(), id@); }
        assert(first_layer_with_id(rest, id@) == {
            let r2 = first_layer_with_id(rest.drop_first(), id@);
            if r2 == -1 { -1 } else { r2 + 1 }
        });
        i = i + 1;
    }
    None
}

proof fn lemma_first_span_bound(spans: Seq<SpanView>, book: Seq<char>, chapter: u16)
    ensures
        first_span_including(spans, book, chapter) >= -1,
    decreases spans.len(),
{
    if spans.len() > 0 {
        lemma_first_span_bound(spans.drop_first(), book, chapter);
    }
}

proof fn lemma_first_era_bound(eras: Seq<(Seq<char>, Seq<char>)>, book: Seq<char>)
    ensures
        first_era_at(eras, book) >= -1,
    decreases eras.len(),
{
    if eras.len() > 0 {
        lemma_first_era_bound(eras.drop_first(), book);
    }
}

proof fn lemma_first_layer_bound(layers: Seq<LayerView>, id: Seq<char>)
    ensures
        first_layer_with_id(layers, id) >= -1,
    decreases layers.len(),
{
    if layers.len() > 0 {
        lemma_first_layer_bound(layers.drop_first(), id);
    }
}

/// The position of a layer id in display order.
spec fn layer_id_rank(id: Seq<char>) -> int {
    if id == "lehi-journey"@ {
        0
    } else if id == "king-benjamin"@ {
        1
    } else if id == "abinadi"@ {
        2
    } else if id == "alma-younger"@ {
        3
    } else if id == "sons-mosiah"@ {
        4
    } else if id == "captain-moroni"@ {
        5
    } else if id == "samuel"@ {
        6
    } else if id == "christ-ministry"@ {
        7
    } else if id == "jaredite-record"@ {
        8
    } else if id == "nephite-end"@ {
        9
    } else if id == "nephi-ministry"@ {
        10
    } else if id == "jacob-ministry"@ {
        11
    } else if id == "people-zeniff"@ {
        12
    } else if id == "people-ammon"@ {
        13
    } else if id == "stripling-warriors"@ {
        14
    } else if id == "nephi-lehi"@ {
        15
    } else if id == "gadianton-robbers"@ {
        16
    } else if id == "isaiah-passages"@ {
        17
    } else if id == "doctrine-christ"@ {
        18
    } else if id == "alma-teachings"@ {
        19
    } else if id == "signs-christ"@ {
        20
    } else if id == "fourth-nephi-peace"@ {
        21
    } else if id == "enos"@ {
        22
    } else if id == "alma-elder"@ {
        23
    } else if id == "amulek"@ {
        24
    } else if id == "helaman"@ {
        25
    } else if id == "mormon-ministry"@ {
        26
    } else if id == "moroni-witness"@ {
        27
    } else if id == "brass-plates"@ {
        28
    } else if id == "waters-mormon"@ {
        29
    } else if id == "ammon-lamoni"@ {
        30
    } else if id == "zoramite-mission"@ {
        31
    } else if id == "nephite-wars"@ {
        32
    } else if id == "olive-tree"@ {
        33
    } else if id == "sermon-temple"@ {
        34
    } else if id == "gathering-israel"@ {
        35
    } else {
        36
    }
}

/// The lengths of the layer ids, and the characters that tell apart ids of equal length.
proof fn lemma_layer_id_facts()
    ensures
        "lehi-journey"@.len() == 12 && "lehi-journey"@[0] == 'l',
        "king-benjamin"@.len() == 13 && "king-benjamin"@[0] == 'k',
        "abinadi"@.len() == 7 && "abinadi"@[0] == 'a',
        "alma-younger"@.len() == 12 && "alma-younger"@[0] == 'a' && "alma-younger"@[1] == 'l',
        "sons-mosiah"@.len() == 11 && "sons-mosiah"@[0] == 's',
        "captain-moroni"@.len() == 14 && "captain-moroni"@[0] == 'c',
        "samuel"@.len() == 6 && "samuel"@[0] == 's',
        "christ-ministry"@.len() == 15 && "christ-ministry"@[0] == 'c',
        "jaredite-record"@.len() == 15 && "jaredite-record"@[0] == 'j',
        "nephite-end"@.len() == 11 && "nephite-end"@[0] == 'n',
        "nephi-ministry"@.len() == 14 && "nephi-ministry"@[0] == 'n',
        "jacob-ministry"@.len() == 14 && "jacob-ministry"@[0] == 'j',
        "people-zeniff"@.len() == 13 && "people-zeniff"@[0] == 'p',
        "people-ammon"@.len() == 12 && "people-ammon"@[0] == 'p',
        "stripling-warriors"@.len() == 18 && "stripling-warriors"@[0] == 's',
        "nephi-lehi"@.len() == 10 && "nephi-lehi"@[0] == 'n',
        "gadianton-robbers"@.len() == 17,
        "isaiah-passages"@.len() == 15 && "isaiah-passages"@[0] == 'i',
        "doctrine-christ"@.len() == 15 && "doctrine-christ"@[0] == 'd',
        "alma-teachings"@.len() == 14 && "alma-teachings"@[0] == 'a',
        "signs-christ"@.len() == 12 && "signs-christ"@[0] == 's',
        "fourth-nephi-peace"@.len() == 18 && "fourth-nephi-peace"@[0] == 'f',
        "enos"@.len() == 4,
        "alma-elder"@.len() == 10 && "alma-elder"@[0] == 'a',
        "amulek"@.len() == 6 && "amulek"@[0] == 'a',
        "helaman"@.len() == 7 && "helaman"@[0] == 'h',
        "mormon-ministry"@.len() == 15 && "mormon-ministry"@[0] == 'm',
        "moroni-witness"@.len() == 14 && "moroni-witness"@[0] == 'm',
        "brass-plates"@.len() == 12 && "brass-plates"@[0] == 'b',
        "waters-mormon"@.len() == 13 && "waters-mormon"@[0] == 'w',
        "ammon-lamoni"@.len() == 12 && "ammon-lamoni"@[0] == 'a' && "ammon-lamoni"@[1] == 'm',
        "zoramite-mission"@.len() == 16 && "zoramite-mission"@[0] == 'z',
        "nephite-wars"@.len() == 12 && "nephite-wars"@[0] == 'n',
        "olive-tree"@.len() == 10 && "olive-tree"@[0] == 'o',
        "sermon-temple"@.len() == 13 && "sermon-temple"@[0] == 's',
        "gathering-israel"@.len() == 16 && "gathering-israel"@[0] == 'g',
{
    reveal_strlit("lehi-journey");
    reveal_strlit("king-benjamin");
    reveal_strlit("abinadi");
    reveal_strlit("alma-younger");
    reveal_strlit("sons-mosiah");
    reveal_strlit("captain-moroni");
    reveal_strlit("samuel");
    reveal_strlit("christ-ministry");
    reveal_strlit("jaredite-record");
    reveal_strlit("nephite-end");
    reveal_strlit("nephi-ministry");
    reveal_strlit("jacob-ministry");
    reveal_strlit("people-zeniff");
    reveal_strlit("people-ammon");
    reveal_strlit("stripling-warriors");
    reveal_strlit("nephi-lehi");
    reveal_strlit("gadianton-robbers");
    reveal_strlit("isaiah-passages");
    reveal_strlit("doctrine-christ");
    reveal_strlit("alma-teachings");
    reveal_strlit("signs-christ");
    reveal_strlit("fourth-nephi-peace");
    reveal_strlit("enos");
    reveal_strlit("alma-elder");
    reveal_strlit("amulek");
    reveal_strlit("helaman");
    reveal_strlit("mormon-ministry");
    reveal_strlit("moroni-witness");
    reveal_strlit("brass-plates");
    reveal_strlit("waters-mormon");
    reveal_strlit("ammon-lamoni");
    reveal_strlit("zoramite-mission");
    reveal_strlit("nephite-wars");
    reveal_strlit("olive-tree");
    reveal_strlit("sermon-temple");
    reveal_strlit("gathering-israel");
}

proof fn lemma_layer_id_ranks()
    ensures
        layer_id_rank("lehi-journey"@) == 0,
        layer_id_rank("king-benjamin"@) == 1,
        layer_id_rank("abinadi"@) == 2,
        layer_id_rank("alma-younger"@) == 3,
        layer_id_rank("sons-mosiah"@) == 4,
        layer_id_rank("captain-moroni"@) == 5,
        layer_id_rank("samuel"@) == 6,
        layer_id_rank("christ-ministry"@) == 7,
        layer_id_rank("jaredite-record"@) == 8,
        layer_id_rank("nephite-end"@) == 9,
        layer_id_rank("nephi-ministry"@) == 10,
        layer_id_rank("jacob-ministry"@) == 11,
        layer_id_rank("people-zeniff"@) == 12,
        layer_id_rank("people-ammon"@) == 13,
        layer_id_rank("stripling-warriors"@) == 14,
        layer_id_rank("nephi-lehi"@) == 15,
        layer_id_rank("gadianton-robbers"@) == 16,
        layer_id_rank("isaiah-passages"@) == 17,
        layer_id_rank("doctrine-christ"@) == 18,
        layer_id_rank("alma-teachings"@) == 19,
        layer_id_rank("signs-christ"@) == 20,
        layer_id_rank("fourth-nephi-peace"@) == 21,
        layer_id_rank("enos"@) == 22,
        layer_id_rank("alma-elder"@) == 23,
        layer_id_rank("amulek"@) == 24,
        layer_id_rank("helaman"@) == 25,
        layer_id_rank("mormon-ministry"@) == 26,
        layer_id_rank("moroni-witness"@) == 27,
        layer_id_rank("brass-plates"@) == 28,
        layer_id_rank("waters-mormon"@) == 29,
        layer_id_rank("ammon-lamoni"@) == 30,
        layer_id_rank("zoramite-mission"@) == 31,
        layer_id_rank("nephite-wars"@) == 32,
        layer_id_rank("olive-tree"@) == 33,
        layer_id_rank("sermon-temple"@) == 34,
        layer_id_rank("gathering-israel"@) == 35,
{
    lemma_layer_id_facts();
}

/// The first layer with the id of a layer that no earlier layer shares is that layer.
proof fn lemma_first_layer_of_unique(layers: Seq<LayerView>, k: int)
    requires
        0 <= k < layers.len(),
        forall|j: int| 0 <= j < k ==> (#[trigger] layers[j]).id != layers[k].id,
    ensures
        first_layer_with_id(layers, layers[k].id) == k,
    decreases k,
{
    if k > 0 {
        let rest = layers.drop_first();
        assert forall|j: int| 0 <= j < k - 1 implies (#[trigger] rest[j]).id != rest[k - 1].id by {
            assert(layers[j + 1].id != layers[k].id);
        }
        lemma_first_layer_of_unique(rest, k - 1);
    }
}

/// No two atlas layers share an id, so looking a layer up by its own id finds that layer.
pub proof fn lemma_layer_ids_distinct()
    ensures
        forall|i: int, j: int| 0 <= i < atlas_layers().len() && 0 <= j < atlas_layers().len() && i != j
            ==> #[trigger] atlas_layers()[i].id != #[trigger] atlas_layers()[j].id,
        forall|k: int| 0 <= k < atlas_layers().len()
            ==> first_layer_with_id(atlas_layers(), #[trigger] atlas_layers()[k].id) == k,
{
    let l = atlas_layers();
    lemma_layer_id_ranks();
    assert forall|k: int| 0 <= k < l.len() implies #[trigger] layer_id_rank(l[k].id) == k by {
        assert(0 <= k < 36);
        if k == 0 {
            assert(l[0].id == "lehi-journey"@);
        } else if k == 1 {
            assert(l[1].id == "king-benjamin"@);
        } else if k == 2 {
            assert(l[2].id == "abinadi"@);
        } else if k == 3 {
            assert(l[3].id == "alma-younger"@);
        } else if k == 4 {
            assert(l[4].id == "sons-mosiah"@);
        } else if k == 5 {
            assert(l[5].id == "captain-moroni"@);
        } else if k == 6 {
            assert(l[6].id == "samuel"@);
        } else if k == 7 {
            assert(l[7].id == "christ-ministry"@);
        } else if k == 8 {
            assert(l[8].id == "jaredite-record"@);
        } else if k == 9 {
            assert(l[9].id == "nephite-end"@);
        } else if k == 10 {
            assert(l[10].id == "nephi-ministry"@);
        } else if k == 11 {
            assert(l[11].id == "jacob-ministry"@);
        } else if k == 12 {
            assert(l[12].id == "people-zeniff"@);
        } else if k == 13 {
            assert(l[13].id == "people-ammon"@);
        } else if k == 14 {
            assert(l[14].id == "stripling-warriors"@);
        } else if k == 15 {
            assert(l[15].id == "nephi-lehi"@);
        } else if k == 16 {
            assert(l[16].id == "gadianton-robbers"@);
        } else if k == 17 {
            assert(l[17].id == "isaiah-passages"@);
        } else if k == 18 {
            assert(l[18].id == "doctrine-christ"@);
        } else if k == 19 {
            assert(l[19].id == "alma-teachings"@);
        } else if k == 20 {
            assert(l[20].id == "signs-christ"@);
        } else if k == 21 {
            assert(l[21].id == "fourth-nephi-peace"@);
        } else if k == 22 {
            assert(l[22].id == "enos"@);
        } else if k == 23 {
            assert(l[23].id == "alma-elder"@);
        } else if k == 24 {
            assert(l[24].id == "amulek"@);
        } else if k == 25 {
            assert(l[25].id == "helaman"@);
        } else if k == 26 {
            assert(l[26].id == "mormon-ministry"@);
        } else if k == 27 {
            assert(l[27].id == "moroni-witness"@);
        } else if k == 28 {
            assert(l[28].id == "brass-plates"@);
        } else if k == 29 {
            assert(l[29].id == "waters-mormon"@);
        } else if k == 30 {
            assert(l[30].id == "ammon-lamoni"@);
        } else if k == 31 {
            assert(l[31].id == "zoramite-mission"@);
        } else if k == 32 {
            assert(l[32].id == "nephite-wars"@);
        } else if k == 33 {
            assert(l[33].id == "olive-tree"@);
        } else if k == 34 {
            assert(l[34].id == "sermon-temple"@);
        } else if k == 35 {
            assert(l[35].id == "gathering-israel"@);
        }
    }
    assert forall|k: int| 0 <= k < l.len() implies first_layer_with_id(l, #[trigger] l[k].id) == k by {
        assert forall|j: int| 0 <= j < k implies (#[trigger] l[j]).id != l[k].id by {
            assert(layer_id_rank(l[j].id) == j);
        }
        lemma_first_layer_of_unique(l, k);
    }
    assert forall|i: int, j: int| 0 <= i < l.len() && 0 <= j < l.len() && i != j implies #[trigger] l[i].id != #[trigger] l[j].id by {
        assert(layer_id_rank(l[i].id) == i);
        assert(layer_id_rank(l[j].id) == j);
    }
}

/// Whether a span names a book and a non-empty run of chapters counted from one.
pub open spec fn span_well_formed(s: SpanView) -> bool {
    s.book.len() > 0 && 0 < s.start && s.start <= s.end
}

proof fn lemma_span_book_lengths()
    ensures
        "1 Nephi"@.len() == 7,
        "2 Nephi"@.len() == 7,
        "3 Nephi"@.len() == 7,
        "4 Nephi"@.len() == 7,
        "Alma"@.len() == 4,
        "Enos"@.len() == 4,
        "Ether"@.len() == 5,
        "Helaman"@.len() == 7,
        "Jacob"@.len() == 5,
        "Mormon"@.len() == 6,
        "Moroni"@.len() == 6,
        "Mosiah"@.len() == 6,
{
    reveal_strlit("1 Nephi");
    reveal_strlit("2 Nephi");
    reveal_strlit("3 Nephi");
    reveal_strlit("4 Nephi");
    reveal_strlit("Alma");
    reveal_strlit("Enos");
    reveal_strlit("Ether");
    reveal_strlit("Helaman");
    reveal_strlit("Jacob");
    reveal_strlit("Mormon");
    reveal_strlit("Moroni");
    reveal_strlit("Mosiah");
}

/// Every span of every atlas layer names a book and a chapter run with 0 < start <= end.
pub proof fn lemma_spans_well_formed()
    ensures
        forall|k: int, j: int| 0 <= k < atlas_layers().len() && 0 <= j < atlas_layers()[k].spans.len()
            ==> span_well_formed(#[trigger] atlas_layers()[k].spans[j]),
{
    let l = atlas_layers();
    lemma_span_book_lengths();
    assert forall|k: int, j: int| 0 <= k < l.len() && 0 <= j < l[k].spans.len() implies span_well_formed(#[trigger] l[k].spans[j]) by {
        assert(0 <= k < 36);
        if k == 0 {
            assert(0 <= j < 1);
            assert(span_well_formed(l[0].spans[0]));
        } else if k == 1 {
            assert(0 <= j < 1);
            assert(span_well_formed(l[1].spans[0]));
        } else if k == 2 {
            assert(0 <= j < 1);
            assert(span_well_formed(l[2].spans[0]));
        } else if k == 3 {
            assert(0 <= j < 2);
            assert(span_well_formed(l[3].spans[0]));
            assert(span_well_formed(l[3].spans[1]));
        } else if k == 4 {
            assert(0 <= j < 2);
            assert(span_well_formed(l[4].spans[0]));
            assert(span_well_formed(l[4].spans[1]));
        } else if k == 5 {
            assert(0 <= j < 1);
            assert(span_well_formed(l[5].spans[0]));
        } else if k == 6 {
            assert(0 <= j < 1);
            assert(span_well_formed(l[6].spans[0]));
        } else if k == 7 {
            assert(0 <= j < 1);
            assert(span_well_formed(l[7].spans[0]));
        } else if k == 8 {
            assert(0 <= j < 1);
            assert(span_well_formed(l[8].spans[0]));
        } else if k == 9 {
            assert(0 <= j < 2);
            assert(span_well_formed(l[9].spans[0]));
            assert(span_well_formed(l[9].spans[1]));
        } else if k == 10 {
            assert(0 <= j < 2);
            assert(span_well_formed(l[10].spans[0]));
            assert(span_well_formed(l[10].spans[1]));
        } else if k == 11 {
            assert(0 <= j < 2);
            assert(span_well_formed(l[11].spans[0]));
            assert(span_well_formed(l[11].spans[1]));
        } else if k == 12 {
            assert(0 <= j < 1);
            assert(span_well_formed(l[12].spans[0]));
        } else if k == 13 {
            assert(0 <= j < 2);
            assert(span_well_formed(l[13].spans[0]));
            assert(span_well_formed(l[13].spans[1]));
        } else if k == 14 {
            assert(0 <= j < 2);
            assert(span_well_formed(l[14].spans[0]));
            assert(span_well_formed(l[14].spans[1]));
        } else if k == 15 {
            assert(0 <= j < 1);
            assert(span_well_formed(l[15].spans[0]));
        } else if k == 16 {
            assert(0 <= j < 3);
            assert(span_well_formed(l[16].spans[0]));
            assert(span_well_formed(l[16].spans[1]));
            assert(span_well_formed(l[16].spans[2]));
        } else if k == 17 {
            assert(0 <= j < 3);
            assert(span_well_formed(l[17].spans[0]));
            assert(span_well_formed(l[17].spans[1]));
            assert(span_well_formed(l[17].spans[2]));
        } else if k == 18 {
            assert(0 <= j < 1);
            assert(span_well_formed(l[18].spans[0]));
        } else if k == 19 {
            assert(0 <= j < 4);
            assert(span_well_formed(l[19].spans[0]));
            assert(span_well_formed(l[19].spans[1]));
            assert(span_well_formed(l[19].spans[2]));
            assert(span_well_formed(l[19].spans[3]));
        } else if k == 20 {
            assert(0 <= j < 2);
            assert(span_well_formed(l[20].spans[0]));
            assert(span_well_formed(l[20].spans[1]));
        } else if k == 21 {
            assert(0 <= j < 1);
            assert(span_well_formed(l[21].spans[0]));
        } else if k == 22 {
            assert(0 <= j < 1);
            assert(span_well_formed(l[22].spans[0]));
        } else if k == 23 {
            assert(0 <= j < 2);
            assert(span_well_formed(l[23].spans[0]));
            assert(span_well_formed(l[23].spans[1]));
        } else if k == 24 {
            assert(0 <= j < 2);
            assert(span_well_formed(l[24].spans[0]));
            assert(span_well_formed(l[24].spans[1]));
        } else if k == 25 {
            assert(0 <= j < 3);
            assert(span_well_formed(l[25].spans[0]));
            assert(span_well_formed(l[25].spans[1]));
            assert(span_well_formed(l[25].spans[2]));
        } else if k == 26 {
            assert(0 <= j < 1);
            assert(span_well_formed(l[26].spans[0]));
        } else if k == 27 {
            assert(0 <= j < 3);
            assert(span_well_formed(l[27].spans[0]));
            assert(span_well_formed(l[27].spans[1]));
            assert(span_well_formed(l[27].spans[2]));
        } else if k == 28 {
            assert(0 <= j < 1);
            assert(span_well_formed(l[28].spans[0]));
        } else if k == 29 {
            assert(0 <= j < 1);
            assert(span_well_formed(l[29].spans[0]));
        } else if k == 30 {
            assert(0 <= j < 1);
            assert(span_well_formed(l[30].spans[0]));
        } else if k == 31 {
            assert(0 <= j < 1);
            assert(span_well_formed(l[31].spans[0]));
        } else if k == 32 {
            assert(0 <= j < 1);
            assert(span_well_formed(l[32].spans[0]));
        } else if k == 33 {
            assert(0 <= j < 1);
            assert(span_well_formed(l[33].spans[0]));
        } else if k == 34 {
            assert(0 <= j < 1);
            assert(span_well_formed(l[34].spans[0]));
        } else if k == 35 {
            assert(0 <= j < 2);
            assert(span_well_formed(l[35].spans[0]));
            assert(span_well_formed(l[35].spans[1]));
        }
    }
}


/// The atlas layers named by a list of ids, in the list's order, passing over unknown ids.
pub open spec fn selected_layers(ids: Seq<Seq<char>>) -> Seq<LayerView>
    decreases ids.len(),
{
    if ids.len() == 0 {
        Seq::empty()
    } else {
        let rest = selected_layers(ids.drop_last());
        let k = first_layer_with_id(atlas_layers(), ids.last());
        if k == -1 { rest } else { rest.push(atlas_layers()[k]) }
    }
}

/// Whether some layer has a span that includes a chapter.
pub open spec fn layers_cover(layers: Seq<LayerView>, book: Seq<char>, chapter: u16) -> bool {
    exists|i: int| 0 <= i < layers.len() && first_span_including(#[trigger] layers[i].spans, book, chapter) != -1
}

/// The whole chapters of one book that some layer covers and whose verse count is known,
/// in the book's order; `counts[k]` is the verse count of `chapters[k]`.
pub open spec fn covered_chapters(
    layers: Seq<LayerView>,
    book: Seq<char>,
    chapters: Seq<u16>,
    counts: Seq<Option<u16>>,
) -> Seq<PassageView>
    decreases chapters.len(),
{
    if chapters.len() == 0 {
        Seq::empty()
    } else {
        let k = chapters.len() - 1;
        let rest = covered_chapters(layers, book, chapters.drop_last(), counts);
        if layers_cover(layers, book, chapters[k]) && k < counts.len() && counts[k] is Some {
            rest.push(range_passage(Canon::BookOfMormon, book, chapters[k], 1, counts[k]->Some_0))
        } else {
            rest
        }
    }
}

/// The whole chapters of every book that some layer covers, book by book; `counts[b]` holds
/// the verse counts of the chapters of `books[b]`.
pub open spec fn covered_passages(
    layers: Seq<LayerView>,
    books: Seq<(Seq<char>, Seq<u16>)>,
    counts: Seq<Seq<Option<u16>>>,
) -> Seq<PassageView>
    decreases books.len(),
{
    if books.len() == 0 {
        Seq::empty()
    } else {
        let b = books.len() - 1;
        let c = if b < counts.len() { counts[b] } else { Seq::empty() };
        covered_passages(layers, books.drop_last(), counts) + covered_chapters(layers, books[b].0, books[b].1, c)
    }
}

pub open spec fn counts_view(v: Seq<Vec<Option<u16>>>) -> Seq<Seq<Option<u16>>> {
    v.map_values(|c: Vec<Option<u16>>| c@)
}

/// Whether any layer of a list has a span that includes a chapter.
fn any_layer_covers(layers: &Vec<AtlasLayer>, book: &str, chapter: u16) -> (r: bool)
    ensures
        r == layers_cover(layers_view(layers@), book@, chapter),
{
    let ghost v = layers_view(layers@);
    let mut i: usize = 0;
    while i < layers.len()
        invariant
            i <= layers@.len(),
            v == layers_view(layers@),
            forall|j: int| 0 <= j < i ==> first_span_including(#[trigger] v[j].spans, book@, chapter) == -1,
        decreases layers.len() - i,
    {
        assert(v[i as int] == layers@[i as int]@);
        if layers[i].span_for(book, chapter).is_some() {
            return true;
        }
        i = i + 1;
    }
    false
}

/// The whole chapters of one book that some layer covers and whose verse count is known.
fn push_covered_chapters(
    out: &mut Vec<StudyPassage>,
    layers: &Vec<AtlasLayer>,
    book: &BookInfo,
    counts: &Vec<Option<u16>>,
)
    ensures
        passages_view(final(out)@) == passages_view(old(out)@)
            + covered_chapters(layers_view(layers@), book.name@, book.chapters@, counts@),
{
    let ghost start = passages_view(out@);
    let ghost ls = layers_view(layers@);
    let mut k: usize = 0;
    assert(book.chapters@.take(0) =~= Seq::<u16>::empty());
    assert(start + Seq::<PassageView>::empty() =~= start);
    while k < book.chapters.len()
        invariant
            k <= book.chapters@.len(),
            ls == layers_view(layers@),
            passages_view(out@) == start + covered_chapters(ls, book.name@, book.chapters@.take(k as int), counts@),
        decreases book.chapters.len() - k,
    {
        let chapter = book.chapters[k];
        let ghost before = passages_view(out@);
        let ghost prefix = book.chapters@.take(k + 1);
        assert(prefix.drop_last() =~= book.chapters@.take(k as int));
        assert(prefix[k as int] == chapter);
        if any_layer_covers(layers, book.name.as_str(), chapter) && k < counts.len() {
            match counts[k] {
                Some(n) => {
                    let p = make_whole_chapter(book.name.as_str(), chapter, n);
                    out.push(p);
                    assert(passages_view(out@) =~= before.push(p@));
                },
                None => {},
            }
        }
        k = k + 1;
    }
    assert(book.chapters@.take(book.chapters@.len() as int) =~= book.chapters@);
}

/// A Book of Mormon passage covering verses one to `count` of a chapter.
fn make_whole_chapter(book: &str, chapter: u16, count: u16) -> (r: StudyPassage)
    ensures
        r@ == range_passage(Canon::BookOfMormon, book@, chapter, 1, count),
{
    let mut verses: Vec<u16> = Vec::new();
    let mut v: u16 = 1;
    while v <= count
        invariant
            1 <= v,
            v <= count + 1 || count == 0,
            count == 0 ==> v == 1,
            verses@ =~= Seq::new((v - 1) as nat, |i: int| (1 + i) as u16),
        decreases count as int + 1 - v,
    {
        verses.push(v);
        if v == u16::MAX {
            assert(verses@ =~= Seq::new(v as nat, |i: int| (1 + i) as u16));
            assert(verses@ =~= crate::study_sets::verse_range(1, count));
            return StudyPassage { canon: Canon::BookOfMormon, book: String::from_str(book), chapter, verses };
        }
        v = v + 1;
    }
    assert(verses@ =~= crate::study_sets::verse_range(1, count));
    StudyPassage { canon: Canon::BookOfMormon, book: String::from_str(book), chapter, verses }
}

/// The practice set of the chosen atlas layers: every whole chapter of the listed books that
/// one of the layers covers, each counted out by its verse count (`verse_counts[b][k]` for the
/// `k`-th chapter of `books[b]`; a chapter without a known count is left out). There is none
/// when no chosen id names a layer, or when no chapter is covered.
pub fn atlas_practice_set(selected: &[String], books: &[BookInfo], verse_counts: &[Vec<Option<u16>>]) -> (r: Option<StudySet>)
    ensures
        ({
            let ls = selected_layers(selected@.map_values(|s: String| s@));
            let ps = covered_passages(ls, books_view(books@), counts_view(verse_counts@));
            match r {
                None => ls.len() == 0 || ps.len() == 0,
                Some(set) => {
                    &&& ls.len() > 0 && ps.len() > 0
                    &&& set.id@ == "atlas-selection"@
                    &&& set.name@ == if ls.len() == 1 { ls[0].name } else { "Atlas selection"@ }
                    &&& passages_view(set.passages@) == ps
                    &&& set.guess_scope == StudyGuessScope::FullCanons
                    &&& set.prompt_policy == PromptPolicy::SingleVerse
                },
            }
        }),
{
    let ghost ids = selected@.map_values(|s: String| s@);
    let mut layers: Vec<AtlasLayer> = Vec::new();
    let mut i: usize = 0;
    while i < selected.len()
        invariant
            i <= selected@.len(),
            ids == selected@.map_values(|s: String| s@),
            layers_view(layers@) == selected_layers(ids.take(i as int)),
        decreases selected.len() - i,
    {
        let ghost prefix = ids.take(i + 1);
        assert(prefix.drop_last() =~= ids.take(i as int));
        assert(prefix.last() == selected@[i as int]@);
        match layer(selected[i].as_str()) {
            Some(l) => {
                let ghost before = layers_view(layers@);
                layers.push(l);
                assert(layers_view(layers@) =~= before.push(l@));
            },
            None => {},
        }
        i = i + 1;
    }
    assert(ids.take(selected@.len() as int) =~= ids);
    let ghost ls = layers_view(layers@);
    if layers.len() == 0 {
        return None;
    }
    let ghost books_v = books_view(books@);
    let ghost counts_v = counts_view(verse_counts@);
    let empty: Vec<Option<u16>> = Vec::new();
    let mut passages: Vec<StudyPassage> = Vec::new();
    let mut b: usize = 0;
    assert(passages_view(passages@) =~= Seq::<PassageView>::empty());
    assert(books_v.take(0) =~= Seq::<(Seq<char>, Seq<u16>)>::empty());
    while b < books.len()
        invariant
            b <= books@.len(),
            ls == layers_view(layers@),
            books_v == books_view(books@),
            counts_v == counts_view(verse_counts@),
            empty@.len() == 0,
            passages_view(passages@) == covered_passages(ls, books_v.take(b as int), counts_v),
        decreases books.len() - b,
    {
        let ghost prefix = books_v.take(b + 1);
        assert(prefix.drop_last() =~= books_v.take(b as int));
        assert(prefix[b as int] == books@[b as int]@);
        if b < verse_counts.len() {
            push_covered_chapters(&mut passages, &layers, &books[b], &verse_counts[b]);
        } else {
            push_covered_chapters(&mut passages, &layers, &books[b], &empty);
            assert(empty@ =~= Seq::<Option<u16>>::empty());
        }
        b = b + 1;
    }
    assert(books_v.take(books@.len() as int) =~= books_v);
    if passages.len() == 0 {
        return None;
    }
    let name = if layers.len() == 1 {
        String::from_str(layers[0].name)
    } else {
        String::from_str("Atlas selection")
    };
    Some(StudySet {
        id: String::from_str("atlas-selection"),
        name,
        passages,
        guess_scope: StudyGuessScope::FullCanons,
        prompt_policy: PromptPolicy::SingleVerse,
    })
}

} // verus!
