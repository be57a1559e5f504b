//! The words the laws of the canvas are stated in: which cards there are and what is drawn of them.
use vstd::prelude::*;

use crate::canvas::doc::{
    lemma_place_of, looker_in, place_for, place_of, Doc, Item, ItemKind, Looking,
};
use crate::canvas::doc_laws::lemma_get;
use crate::canvas::screens::{stream_on, Stream};
use crate::canvas::shells::{shell_in, Shell};
use crate::canvas::view::Canvas;

verus! {

/// A shell of the session is drawn here.
pub open spec fn shell_shown(canvas: Canvas, session: u128) -> bool {
    exists|i: int|
        0 <= i < canvas.shells.terminals.len() && (#[trigger] canvas.shells.terminals[i]).session
            == session
}

/// A stream is drawn on the card.
pub open spec fn stream_shown(canvas: Canvas, card: u128) -> bool {
    exists|i: int|
        0 <= i < canvas.screens.open.len() && (#[trigger] canvas.screens.open[i]).item == card
}

/// Another client looks somewhere.
pub open spec fn someone_looks(canvas: Canvas, client: u128) -> bool {
    exists|i: int|
        0 <= i < canvas.doc.lookers.len() && (#[trigger] canvas.doc.lookers[i]).client == client
}

/// The card is a terminal of the session.
pub open spec fn runs(item: Item<Seq<char>>, session: u128) -> bool {
    item.kind matches ItemKind::Terminal { session: s } && s == session
}

/// The card at this place is a terminal of the session, the first on the canvas.
pub open spec fn first_for(canvas: Canvas, session: u128, at: int) -> bool {
    &&& 0 <= at < canvas.doc.items.len()
    &&& runs(canvas.doc.items[at], session)
    &&& forall|i: int|
        0 <= i < at ==> !runs(#[trigger] canvas.doc.items[i], session)
}

pub proof fn lemma_shell_shown(canvas: Canvas, session: u128)
    ensures
        canvas.shells.drawn(session) == shell_shown(canvas, session),
{
    lemma_shell_found(canvas.shells.terminals, session);
}

proof fn lemma_shell_found(all: Seq<Shell<Seq<char>>>, session: u128)
    ensures
        shell_in(all, session) is Some <==> exists|i: int|
            0 <= i < all.len() && (#[trigger] all[i]).session == session,
        shell_in(all, session) matches Some(shell) ==> shell.session == session && all.contains(
            shell,
        ),
    decreases all.len(),
{
    if all.len() > 0 {
        let rest = all.drop_first();
        lemma_shell_found(rest, session);
        if all[0].session != session {
            if shell_in(rest, session) is Some {
                let i = choose|i: int| 0 <= i < rest.len() && (#[trigger] rest[i]).session == session;
                assert(all[i + 1].session == session);
                let k = choose|k: int| 0 <= k < rest.len() && rest[k] == shell_in(rest, session)->0;
                assert(all[k + 1] == shell_in(all, session)->0);
            }
            if exists|i: int| 0 <= i < all.len() && (#[trigger] all[i]).session == session {
                let i = choose|i: int| 0 <= i < all.len() && (#[trigger] all[i]).session == session;
                assert(rest[i - 1].session == session);
            }
        } else {
            assert(all.contains(all[0]));
        }
    }
}

pub proof fn lemma_stream_shown(canvas: Canvas, card: u128)
    ensures
        (stream_on(canvas.screens.open, card) is Some) == stream_shown(canvas, card),
{
    lemma_stream_found(canvas.screens.open, card);
}

proof fn lemma_stream_found(all: Seq<Stream>, card: u128)
    ensures
        stream_on(all, card) is Some <==> exists|i: int|
            0 <= i < all.len() && (#[trigger] all[i]).item == card,
    decreases all.len(),
{
    if all.len() > 0 {
        let rest = all.drop_first();
        lemma_stream_found(rest, card);
        if all[0].item != card {
            if stream_on(rest, card) is Some {
                let i = choose|i: int| 0 <= i < rest.len() && (#[trigger] rest[i]).item == card;
                assert(all[i + 1].item == card);
            }
            if exists|i: int| 0 <= i < all.len() && (#[trigger] all[i]).item == card {
                let i = choose|i: int| 0 <= i < all.len() && (#[trigger] all[i]).item == card;
                assert(rest[i - 1].item == card);
            }
        }
    }
}

pub proof fn lemma_someone_looks(canvas: Canvas, client: u128)
    ensures
        (canvas.doc.looker(client) is Some) == someone_looks(canvas, client),
{
    lemma_looker_found(canvas.doc.lookers, client);
}

proof fn lemma_looker_found(all: Seq<Looking<Seq<char>>>, client: u128)
    ensures
        looker_in(all, client) is Some <==> exists|i: int|
            0 <= i < all.len() && (#[trigger] all[i]).client == client,
    decreases all.len(),
{
    if all.len() > 0 {
        let rest = all.drop_first();
        lemma_looker_found(rest, client);
        if all[0].client != client {
            if looker_in(rest, client) is Some {
                let i = choose|i: int| 0 <= i < rest.len() && (#[trigger] rest[i]).client == client;
                assert(all[i + 1].client == client);
            }
            if exists|i: int| 0 <= i < all.len() && (#[trigger] all[i]).client == client {
                let i = choose|i: int| 0 <= i < all.len() && (#[trigger] all[i]).client == client;
                assert(rest[i - 1].client == client);
            }
        }
    }
}

/// A card is found by its identity.
pub proof fn lemma_card(doc: Doc, item: Item<Seq<char>>)
    requires
        doc.sound(),
        doc.items.contains(item),
    ensures
        doc.get(item.id) == Some(item),
{
    let i = choose|i: int| 0 <= i < doc.items.len() && doc.items[i] == item;
    lemma_get(doc, i);
}

/// What is found is a card with that identity.
pub proof fn lemma_found(doc: Doc, id: u128)
    ensures
        doc.get(id) matches Some(item) ==> item.id == id && doc.items.contains(item),
        doc.get(id) is None <==> forall|i: int|
            0 <= i < doc.items.len() ==> (#[trigger] doc.items[i]).id != id,
{
    lemma_place_of(doc.items, id);
    let at = place_of(doc.items, id);
    if at < doc.items.len() {
        assert(doc.items.contains(doc.items[at]));
        assert(doc.items[at].id == id);
    }
}

/// The card of a session is the first of its terminals.
pub proof fn lemma_first_for(canvas: Canvas, session: u128)
    ensures
        canvas.doc.for_session(session) matches Some(item) ==> exists|at: int| #[trigger]
            first_for(canvas, session, at) && item == canvas.doc.items[at],
        canvas.doc.for_session(session) is None <==> forall|i: int|
            0 <= i < canvas.doc.items.len() ==> !runs(#[trigger] canvas.doc.items[i], session),
{
    let items = canvas.doc.items;
    lemma_place(items, session);
    let at = place_for(items, session);
    if at < items.len() {
        assert(first_for(canvas, session, at));
    }
}

/// There is one first card of a session.
pub proof fn lemma_first_is(canvas: Canvas, session: u128, at: int)
    requires
        first_for(canvas, session, at),
    ensures
        canvas.doc.for_session(session) == Some(canvas.doc.items[at]),
{
    lemma_place(canvas.doc.items, session);
    let found = place_for(canvas.doc.items, session);
    if found < at {
        assert(!runs(canvas.doc.items[found], session));
    }
}

proof fn lemma_place(items: Seq<Item<Seq<char>>>, session: u128)
    ensures
        0 <= place_for(items, session) <= items.len(),
        place_for(items, session) < items.len() ==> runs(
            items[place_for(items, session)],
            session,
        ),
        forall|i: int|
            0 <= i < place_for(items, session) ==> !runs(#[trigger] items[i], session),
    decreases items.len(),
{
    if items.len() > 0 && !(items[0].kind matches ItemKind::Terminal { session: s } && s
        == session) {
        let rest = items.drop_first();
        lemma_place(rest, session);
        let at = place_for(rest, session);
        if at < rest.len() {
            assert(rest[at] == items[at + 1]);
        }
        assert forall|i: int| 0 <= i < at + 1 implies !runs(#[trigger] items[i], session) by {
            if i > 0 {
                assert(rest[i - 1] == items[i]);
            }
        }
    }
}

} // verus!
