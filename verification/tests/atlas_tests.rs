use scripguessr::atlas::{atlas_practice_set, book_chronology, era_starting_at, layer, layers, AtlasCategory};
use scripguessr::scriptures::{BookInfo, Canon};
use scripguessr::study_sets::{PromptPolicy, StudyGuessScope};

#[test]
fn overlapping_layers_are_independently_discoverable() {
    assert!(layer("alma-younger").unwrap().span_for("Alma", 20).is_some());
    assert!(layer("sons-mosiah").unwrap().span_for("Alma", 20).is_some());
    assert!(layer("captain-moroni").unwrap().span_for("Alma", 20).is_none());
}

#[test]
fn every_span_has_valid_bounds() {
    assert!(layers()
        .iter()
        .flat_map(|layer| layer.spans.iter())
        .all(|span| !span.book.is_empty() && span.start > 0 && span.start <= span.end));
}

#[test]
fn layer_ids_are_unique() {
    let all = layers();
    let mut ids = all.iter().map(|layer| layer.id).collect::<Vec<_>>();
    ids.sort_unstable();
    ids.dedup();
    assert_eq!(ids.len(), all.len());
}

#[test]
fn every_book_has_chronology() {
    let books = [
        "1 Nephi",
        "2 Nephi",
        "Jacob",
        "Enos",
        "Jarom",
        "Omni",
        "Words of Mormon",
        "Mosiah",
        "Alma",
        "Helaman",
        "3 Nephi",
        "4 Nephi",
        "Mormon",
        "Ether",
        "Moroni",
    ];
    assert!(books.into_iter().all(|book| book_chronology(book).is_some()));
}

#[test]
fn unknown_layers_and_books_are_not_found() {
    assert!(layer("no-such-layer").is_none());
    assert!(book_chronology("Genesis").is_none());
    assert!(era_starting_at("1 Nephi").is_some());
    assert_eq!(AtlasCategory::Person.label(), "People");
}

#[test]
fn practice_set_covers_the_whole_chapters_of_the_chosen_layers() {
    let books = vec![
        BookInfo { name: "Mosiah".to_string(), chapters: vec![1, 2, 7, 11] },
        BookInfo { name: "Alma".to_string(), chapters: vec![1] },
    ];
    let counts = vec![vec![Some(18), None, Some(33), Some(29)], vec![Some(33)]];
    let selected = vec!["king-benjamin".to_string(), "no-such-layer".to_string()];
    let set = atlas_practice_set(&selected, &books, &counts).unwrap();
    assert_eq!(set.id, "atlas-selection");
    assert_eq!(set.name, "King Benjamin");
    assert_eq!(set.guess_scope, StudyGuessScope::FullCanons);
    assert_eq!(set.prompt_policy, PromptPolicy::SingleVerse);
    assert_eq!(set.passages.len(), 1);
    assert_eq!(set.passages[0].canon, Canon::BookOfMormon);
    assert_eq!(set.passages[0].book, "Mosiah");
    assert_eq!(set.passages[0].chapter, 1);
    assert_eq!(set.passages[0].verses, (1..=18).collect::<Vec<u16>>());

    let both = vec!["king-benjamin".to_string(), "abinadi".to_string()];
    let set = atlas_practice_set(&both, &books, &counts).unwrap();
    assert_eq!(set.name, "Atlas selection");
    assert_eq!(set.passages.iter().map(|p| p.chapter).collect::<Vec<_>>(), vec![1, 11]);

    assert!(atlas_practice_set(&["no-such-layer".to_string()], &books, &counts).is_none());
    assert!(atlas_practice_set(&["captain-moroni".to_string()], &books, &counts).is_none());
}

#[test]
fn each_layer_is_found_by_its_own_id() {
    for item in layers() {
        assert_eq!(layer(item.id).unwrap().id, item.id);
    }
    assert!(layer("no-such-layer").is_none());
}
