use vstd::prelude::*;

use crate::atlas::{atlas_layers, first_layer_with_id, first_span_including, layer, layers_view, AtlasLayer, LayerView};
use crate::game::{
    label_counts_books, metadata_current_spec, metadata_ready_spec, selected_books_total, selection_label_spec,
    Game, GuessResult,
};
use crate::scoring::distance_label_spec;
use crate::scriptures::{difficulty_label, strings_view};
use crate::text::{decimal, lowercase, str_to_lowercase, u64_to_decimal};

verus! {

/// The line under the setup screen's title: the chosen scope, and the round count,
/// difficulty and verse counts once the metadata is ready.
pub open spec fn setup_subtitle_spec(g: Game) -> Seq<char> {
    let label = selection_label_spec(g.settings.scope@);
    if g.settings.scope@.len() == 0 {
        label + " · choose a scope to start"@
    } else if metadata_ready_spec(g) {
        label + " · "@ + decimal(g.settings.round_count as nat) + " rounds · "@ + difficulty_label(g.settings.difficulty)
            + " · "@ + decimal(g.playable_verse_count as nat) + " of "@ + decimal(g.total_verse_count as nat)
            + " verses in play"@
    } else {
        label + " · loading game data"@
    }
}

/// The line under the setup screen's title.
pub fn setup_subtitle(game: &Game) -> (r: String)
    requires
        label_counts_books(game.settings.scope@) ==> selected_books_total(game.settings.scope@) <= usize::MAX,
    ensures
        r@ == setup_subtitle_spec(*game),
{
    let mut r = game.settings.selection_label();
    if game.settings.scope.canons.len() == 0 {
        r.append(" · choose a scope to start");
    } else if game.metadata_ready() {
        assert(metadata_current_spec(*game));
        r.append(" · ");
        r.append(u64_to_decimal(game.settings.round_count as u64).as_str());
        r.append(" rounds · ");
        r.append(game.settings.difficulty.label());
        r.append(" · ");
        r.append(u64_to_decimal(game.verse_count_for_difficulty() as u64).as_str());
        r.append(" of ");
        r.append(u64_to_decimal(game.total_verse_count() as u64).as_str());
        r.append(" verses in play");
    } else {
        r.append(" · loading game data");
    }
    r
}

/// The heading and the sentence that tell the player how close a guess came.
pub open spec fn result_feedback_spec(result: GuessResult) -> (Seq<char>, Seq<char>) {
    if result.answer.canon != result.guess.canon {
        ("Different canon"@, "The answer was in a different canon."@)
    } else if result.score.chapter_distance == 0 {
        ("Exact match"@, "You placed the verse in the right book and chapter."@)
    } else {
        let distance = lowercase(distance_label_spec(result.score.chapter_distance));
        if result.answer.book@ == result.guess.book@ {
            ("Same book"@, "Your guess was "@ + distance + " in the same book."@)
        } else {
            ("Same canon"@, "Your guess was "@ + distance + "."@)
        }
    }
}

/// The heading and the sentence that tell the player how close a guess came.
pub fn result_feedback(result: &GuessResult) -> (r: (&'static str, String))
    ensures
        (r.0@, r.1@) == result_feedback_spec(*result),
{
    if result.answer.canon != result.guess.canon {
        return ("Different canon", String::from_str("The answer was in a different canon."));
    }
    if result.score.chapter_distance == 0 {
        return ("Exact match", String::from_str("You placed the verse in the right book and chapter."));
    }
    let label = result.score.distance_label();
    let distance = str_to_lowercase(label.as_str());
    let mut sentence = String::from_str("Your guess was ");
    sentence.append(distance.as_str());
    if crate::text::str_equal(result.answer.book.as_str(), result.guess.book.as_str()) {
        sentence.append(" in the same book.");
        ("Same book", sentence)
    } else {
        sentence.append(".");
        ("Same canon", sentence)
    }
}

/// The layers among those chosen (by id, unknown ids skipped) that span a chapter, in the
/// order chosen.
pub open spec fn atlas_hits_spec(selected: Seq<Seq<char>>, book: Seq<char>, chapter: u16) -> Seq<LayerView>
    decreases selected.len(),
{
    if selected.len() == 0 {
        Seq::empty()
    } else {
        let before = atlas_hits_spec(selected.drop_last(), book, chapter);
        let i = first_layer_with_id(atlas_layers(), selected.last());
        if i != -1 && first_span_including(atlas_layers()[i].spans, book, chapter) != -1 {
            before.push(atlas_layers()[i])
        } else {
            before
        }
    }
}

/// The layers among those chosen that span a chapter, in the order chosen.
pub fn atlas_hits(selected: &Vec<String>, book: &str, chapter: u16) -> (r: Vec<AtlasLayer>)
    ensures
        layers_view(r@) == atlas_hits_spec(strings_view(selected@), book@, chapter),
{
    let ghost ids = strings_view(selected@);
    let mut r: Vec<AtlasLayer> = Vec::new();
    let mut i: usize = 0;
    while i < selected.len()
        invariant
            i <= selected@.len(),
            ids == strings_view(selected@),
            layers_view(r@) == atlas_hits_spec(ids.take(i as int), book@, chapter),
        decreases selected.len() - i,
    {
        proof {
            assert(ids.take(i + 1).drop_last() =~= ids.take(i as int));
            assert(ids.take(i + 1).last() == selected@[i as int]@);
        }
        match layer(selected[i].as_str()) {
            Some(l) => {
                if l.span_for(book, chapter).is_some() {
                    let ghost before = layers_view(r@);
                    r.push(l);
                    assert(layers_view(r@) =~= before.push(l@));
                }
            },
            None => {},
        }
        i = i + 1;
    }
    assert(ids.take(selected@.len() as int) =~= ids);
    r
}

} // verus!
