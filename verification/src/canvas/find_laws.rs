//! What holds of a find in every card.
use vstd::prelude::*;

use crate::canvas::doc::{lemma_place_of, place_of, reading_ids, ItemKind};
use crate::canvas::doc_laws::law_the_walk_names_each_card_once;
use crate::canvas::msg::{ClientMsg, Done, Effect, PaletteRun, TermRequest};
use crate::canvas::search::{counted, shown_lines};
use crate::canvas::view::{Canvas, Finding, Hit};
use crate::file::hits_of;
use crate::text::{lines, trim};

verus! {

/// What a card answers at once: a note by its text, a file card by the lines its view shows; a
/// shell answers later.
pub open spec fn answer_of(
    canvas: Canvas,
    id: u128,
    needle: Seq<char>,
    files: Seq<(u128, Vec<String>)>,
) -> Option<Hit<Seq<char>>> {
    match canvas.doc.get(id) {
        Some(item) => match item.kind {
            ItemKind::Note { text } => counted(
                hits_of(lines(text), needle).len(),
                PaletteRun::Item(id),
            ),
            ItemKind::File { .. } => match shown_lines(files, id) {
                Some(all) => counted(
                    hits_of(all, needle).len(),
                    PaletteRun::FindInFile { item: id, needle },
                ),
                None => None,
            },
            _ => None,
        },
        None => None,
    }
}

/// The shell is asked for the needle.
pub open spec fn asks(out: Seq<Done>, session: u128, needle: Seq<char>) -> bool {
    exists|i: int|
        0 <= i < out.len() && #[trigger] out[i] == Effect::<Seq<char>, Seq<Seq<char>>>::Send(
            ClientMsg::Term { session, req: TermRequest::Search { needle, max: 1, regex: false } },
        )
}

proof fn lemma_sought(
    canvas: Canvas,
    one: u128,
    needle: Seq<char>,
    files: Seq<(u128, Vec<String>)>,
    id: u128,
    session: u128,
)
    ensures
        ({
            let r = canvas.then_sought(one, needle, files);
            &&& r == (Canvas {
                find: Finding { hits: r.find.hits, ..canvas.find },
                out: r.out,
                ..canvas
            })
            &&& id != one || answer_of(canvas, id, needle, files) is None ==> {
                &&& r.find.hits.contains_key(id) == canvas.find.hits.contains_key(id)
                &&& r.find.hits[id] == canvas.find.hits[id]
            }
            &&& id == one ==> (answer_of(canvas, id, needle, files) matches Some(hit)
                ==> r.find.hits.contains_key(id) && r.find.hits[id] == hit)
            &&& asks(canvas.out, session, needle) ==> asks(r.out, session, needle)
            &&& canvas.doc.session_of(one) == Some(session) && canvas.shells.drawn(session)
                ==> asks(r.out, session, needle)
        }),
{
    let r = canvas.then_sought(one, needle, files);
    if asks(canvas.out, session, needle) {
        let i = choose|i: int|
            0 <= i < canvas.out.len() && #[trigger] canvas.out[i] == Effect::<
                Seq<char>,
                Seq<Seq<char>>,
            >::Send(ClientMsg::Term { session, req: TermRequest::Search { needle, max: 1, regex: false } });
        assert(r.out[i] == canvas.out[i]);
    }
    if canvas.doc.session_of(one) == Some(session) && canvas.shells.drawn(session) {
        assert(r.out[canvas.out.len() as int] == Effect::<Seq<char>, Seq<Seq<char>>>::Send(
            ClientMsg::Term { session, req: TermRequest::Search { needle, max: 1, regex: false } },
        ));
    }
}

proof fn lemma_sought_all(
    canvas: Canvas,
    ids: Seq<u128>,
    needle: Seq<char>,
    files: Seq<(u128, Vec<String>)>,
    id: u128,
    session: u128,
)
    ensures
        ({
            let r = canvas.then_sought_all(ids, needle, files);
            &&& r == (Canvas {
                find: Finding { hits: r.find.hits, ..canvas.find },
                out: r.out,
                ..canvas
            })
            &&& !ids.contains(id) || answer_of(canvas, id, needle, files) is None ==> {
                &&& r.find.hits.contains_key(id) == canvas.find.hits.contains_key(id)
                &&& r.find.hits[id] == canvas.find.hits[id]
            }
            &&& ids.contains(id) ==> (answer_of(canvas, id, needle, files) matches Some(hit)
                ==> r.find.hits.contains_key(id) && r.find.hits[id] == hit)
            &&& ids.contains(id) && canvas.doc.session_of(id) == Some(session)
                && canvas.shells.drawn(session) ==> asks(r.out, session, needle)
        }),
    decreases ids.len(),
{
    if ids.len() > 0 {
        let init = ids.drop_last();
        let mid = canvas.then_sought_all(init, needle, files);
        lemma_sought_all(canvas, init, needle, files, id, session);
        lemma_sought(mid, ids.last(), needle, files, id, session);
        if init.contains(id) {
            let i = choose|i: int| 0 <= i < init.len() && init[i] == id;
            assert(ids[i] == id);
        }
        if ids.last() == id {
            assert(ids[ids.len() - 1] == id);
        }
        if ids.contains(id) {
            let i = choose|i: int| 0 <= i < ids.len() && ids[i] == id;
            if i < init.len() {
                assert(init[i] == id);
            }
        }
    }
}

/// A find asks every card: each note and each file card that is shown has the count of its lines
/// that hold the needle, each shell that is drawn is asked for its own, and nothing else is counted
/// yet. Nothing but the find changes.
pub proof fn law_a_find_asks_every_card(
    canvas: Canvas,
    text: Seq<char>,
    files: Seq<(u128, Vec<String>)>,
    id: u128,
)
    requires
        canvas.doc.sound(),
        canvas.doc.items.len() <= usize::MAX,
        canvas.doc.has(id),
        trim(text).len() > 0,
    ensures
        ({
            let r = canvas.then_find(text, files);
            let needle = trim(text);
            &&& r.find.needle == Some(needle) && r.find.last == needle
            &&& r.find.hits.contains_key(id) == (answer_of(canvas, id, needle, files) is Some)
            &&& answer_of(canvas, id, needle, files) matches Some(hit) ==> r.find.hits[id] == hit
            &&& canvas.doc.session_of(id) matches Some(session) ==> (canvas.shells.drawn(session)
                ==> asks(r.out, session, needle))
            &&& r == (Canvas { find: r.find, out: r.out, ..canvas })
        }),
{
    let needle = trim(text);
    law_the_walk_names_each_card_once(canvas.doc);
    lemma_place_of(canvas.doc.items, id);
    let at = place_of(canvas.doc.items, id);
    assert(reading_ids(canvas.doc.items).contains(canvas.doc.items[at].id));
    let start = Canvas {
        find: Finding { needle: Some(needle), hits: Map::empty(), last: needle },
        ..canvas
    };
    let session = match canvas.doc.session_of(id) {
        Some(s) => s,
        None => 0u128,
    };
    lemma_sought_all(start, reading_ids(canvas.doc.items), needle, files, id, session);
}

/// A find for nothing counts nothing and asks no one, and what was sought last is kept.
pub proof fn law_a_blank_find_asks_no_one(
    canvas: Canvas,
    text: Seq<char>,
    files: Seq<(u128, Vec<String>)>,
)
    requires
        trim(text).len() == 0,
    ensures
        canvas.then_find(text, files).out == canvas.out,
        canvas.then_find(text, files).find.hits == Map::<u128, Hit<Seq<char>>>::empty(),
        canvas.then_find(text, files).find.last == canvas.find.last,
{
}

} // verus!
