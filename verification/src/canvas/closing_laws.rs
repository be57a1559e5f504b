//! What holds of a card that is closed and taken back.
use vstd::prelude::*;

use crate::canvas::doc::{lemma_place_of, Doc, Item, ItemKind, Op};
use crate::canvas::doc_laws::{
    law_a_change_is_about_one_card, lemma_for_session, lemma_session_card, lemma_without,
};
use crate::canvas::msg::{ClientMsg, Effect, TermRequest};
use crate::canvas::reconcile_laws::{
    law_reconciling_draws_what_is_here, lemma_carded, lemma_spares_push, lemma_spares_self,
    lemma_spares_trans, lemma_undrawn, spares, to_draw,
};
use crate::canvas::shells::ShellState;
use crate::canvas::view::cards::{chosen_closing, closing_at};
use crate::canvas::view::live::still_closed;
use crate::canvas::view::{after_seq, Canvas, ClosedCard, ToastKind, UNDO_CLOSE};

verus! {

/// No card but this one shows the session.
pub open spec fn only_card(doc: Doc, id: u128, session: u128) -> bool {
    forall|i: int|
        0 <= i < doc.items.len() && (#[trigger] doc.items[i]).kind == (ItemKind::<
            Seq<char>,
        >::Terminal { session }) ==> doc.items[i].id == id
}

/// The card is as it was but for the number that puts it over the others.
pub open spec fn as_it_was(now: Option<Item<Seq<char>>>, was: Item<Seq<char>>) -> bool {
    now matches Some(item) && item == (Item { z: item.z, ..was })
}

/// What closing a card does to the canvas.
proof fn lemma_remember(
    canvas: Canvas,
    item: Item<Seq<char>>,
    session: Option<u128>,
    one: u128,
)
    requires
        session matches Some(s) ==> canvas.shells.alive(s),
    ensures
        ({
            let r = canvas.then_remember(item, session);
            let card = ClosedCard { item, session, seq: after_seq(canvas.closed_seq) };
            &&& r.doc == canvas.doc.after(Op::Remove(item.id))
            &&& r.closed == still_closed(canvas.closed, canvas.shells).push(card)
            &&& r.shells == (ShellState { terminals: r.shells.terminals, ..canvas.shells })
            &&& r.notes == canvas.notes
            &&& r.toast matches Some(t) && t.what == (ToastKind::Closed {
                seq: card.seq,
                title: canvas.card_title(item),
            })
            &&& session == Some(one) ==> r.shells.drawn(one) && spares(canvas.out, r.out, one)
        }),
{
    let seq = after_seq(canvas.closed_seq);
    let card = ClosedCard { item, session, seq };
    let held = Canvas { closed_seq: seq, closed: canvas.closed.push(card), ..canvas };
    let removed = held.propose(Op::Remove(item.id));
    law_reconciling_draws_what_is_here(removed, one);
    assert(held.closed.drop_last() == canvas.closed);
    let settled = removed.then_reconcile();
    let title = canvas.card_title(item);
    assert(canvas.card_title(item) == held.card_title(item));
    let toasted = settled.then_toast(ToastKind::Closed { seq, title }, UNDO_CLOSE);
    if session == Some(one) {
        assert(removed.closed[canvas.closed.len() as int].session == Some(one));
        assert(to_draw(removed, one));
        lemma_spares_self(canvas.out, one);
        lemma_spares_push(
            canvas.out,
            canvas.out,
            Effect::Send(ClientMsg::Canvas(Op::Remove(item.id))),
            one,
        );
        lemma_spares_trans(canvas.out, removed.out, settled.out, one);
        let t = toasted.toast->0;
        lemma_spares_push(
            canvas.out,
            settled.out,
            Effect::ToastTimer { seq: t.seq, millis: UNDO_CLOSE },
            one,
        );
        lemma_spares_push(
            canvas.out,
            toasted.out,
            Effect::CloseTimer { seq, millis: UNDO_CLOSE },
            one,
        );
    }
}

/// What making a card active does to the canvas.
proof fn lemma_activate(canvas: Canvas, id: u128, other: u128, one: u128)
    requires
        canvas.doc.sound(),
        other != id,
    ensures
        ({
            let r = canvas.then_activate(id);
            &&& r.active == Some(id)
            &&& r.doc.sound()
            &&& canvas.doc.get(id) matches Some(item) ==> as_it_was(r.doc.get(id), item)
            &&& r.doc.get(other) == canvas.doc.get(other)
            &&& r.shells.terminals == canvas.shells.terminals
            &&& r.closed == canvas.closed
            &&& r.pending == canvas.pending
            &&& spares(canvas.out, r.out, one)
        }),
{
    law_a_change_is_about_one_card(canvas.doc, Op::Raise(id), other);
    lemma_spares_self(canvas.out, one);
    lemma_spares_push(
        canvas.out,
        canvas.out,
        Effect::Send(ClientMsg::Canvas(Op::Raise(id))),
        one,
    );
}

/// What taking the latest closing back does to the canvas, up to bringing the card into view.
proof fn lemma_put_back(canvas: Canvas, card: ClosedCard<Seq<char>>, other: u128, one: u128)
    requires
        canvas.doc.sound(),
        canvas.closed.len() > 0,
        canvas.closed.last() == card,
        !canvas.doc.has(card.item.id),
        other != card.item.id,
    ensures
        ({
            let first = Canvas {
                closed: canvas.closed.remove(canvas.closed.len() - 1),
                toast: if canvas.toast matches Some(t) && t.what is Closed {
                    None
                } else {
                    canvas.toast
                },
                ..canvas
            }.propose(Op::Upsert(card.item)).then_reconcile();
            &&& first.doc.sound()
            &&& first.doc.items == canvas.doc.items.push(card.item)
            &&& first.doc.get(card.item.id) == Some(card.item)
            &&& first.doc.get(other) == canvas.doc.get(other)
            &&& first.closed == still_closed(canvas.closed.drop_last(), canvas.shells)
            &&& (card.item.kind == (ItemKind::<Seq<char>>::Terminal { session: one })
                && !card.item.sleeping && canvas.shells.alive(one)) ==> (first.shells.drawn(one)
                && spares(canvas.out, first.out, one))
            &&& first.shells == (ShellState {
                terminals: first.shells.terminals,
                ..canvas.shells
            })
        }),
{
    let held = Canvas {
        closed: canvas.closed.remove(canvas.closed.len() - 1),
        toast: if canvas.toast matches Some(t) && t.what is Closed {
            None
        } else {
            canvas.toast
        },
        ..canvas
    };
    assert(canvas.closed.remove(canvas.closed.len() - 1) =~= canvas.closed.drop_last());
    let put = held.propose(Op::Upsert(card.item));
    law_a_change_is_about_one_card(canvas.doc, Op::Upsert(card.item), other);
    law_reconciling_draws_what_is_here(put, one);
    let items = put.doc.items;
    assert(items == canvas.doc.items.push(card.item));
    if card.item.kind == (ItemKind::<Seq<char>>::Terminal { session: one }) && !card.item.sleeping
        && canvas.shells.alive(one) {
        lemma_carded(items, put.shells, one);
        assert(!items[items.len() - 1].sleeping);
        lemma_spares_self(canvas.out, one);
        lemma_spares_push(
            canvas.out,
            canvas.out,
            Effect::Send(ClientMsg::Canvas(Op::Upsert(card.item))),
            one,
        );
        lemma_spares_trans(canvas.out, put.out, put.then_reconcile().out, one);
    }
}

/// A live shell that is closed leaves the canvas but runs on: nothing sent ends its session or lets
/// go of its rows. Taken back in time its card is where it was, under its name, active and about to
/// be in view with the keyboard in it; the other cards are as they were.
pub proof fn law_a_closed_shell_is_taken_back(canvas: Canvas, session: u128, other: u128)
    requires
        canvas.doc.sound(),
        canvas.shells.alive(session),
        canvas.shells.drawn(session),
        canvas.doc.for_session(session) is Some,
        only_card(canvas.doc, canvas.doc.for_session(session)->0.id, session),
        other != canvas.doc.for_session(session)->0.id,
    ensures
        ({
            let item = canvas.doc.for_session(session)->0;
            let closed = canvas.then_close_shell(session);
            let back = closed.then_take_back(None);
            &&& !closed.doc.has(item.id)
            &&& closed.doc.get(other) == canvas.doc.get(other)
            &&& closed.shells.drawn(session)
            &&& spares(canvas.out, closed.out, session)
            &&& as_it_was(back.doc.get(item.id), item)
            &&& back.doc.get(other) == canvas.doc.get(other)
            &&& back.active == Some(item.id)
            &&& back.pending.reveal == Some(item.id)
            &&& back.pending.focus == Some(session)
            &&& !item.sleeping ==> back.shells.drawn(session) && spares(
                closed.out,
                back.out,
                session,
            )
        }),
{
    let item = canvas.doc.for_session(session)->0;
    let closed = canvas.then_close_shell(session);
    let card = ClosedCard {
        item,
        session: Some(session),
        seq: after_seq(canvas.closed_seq),
    };
    lemma_session_card(canvas.doc, session);
    lemma_remember(canvas, item, Some(session), session);
    law_a_change_is_about_one_card(canvas.doc, Op::Remove(item.id), other);
    assert(closed.closed.last() == card);
    assert(closed.closed[closed.closed.len() - 1] == card);
    lemma_put_back(closed, card, other, session);
    let first = Canvas {
        closed: closed.closed.remove(closed.closed.len() - 1),
        toast: if closed.toast matches Some(t) && t.what is Closed {
            None
        } else {
            closed.toast
        },
        ..closed
    }.propose(Op::Upsert(item)).then_reconcile();
    let n = first.doc.items.len() - 1;
    lemma_without(canvas.doc.items, item.id);
    assert forall|j: int| 0 <= j < first.doc.items.len() && j != n implies (
    #[trigger] first.doc.items[j]).kind != (ItemKind::<Seq<char>>::Terminal { session }) by {
        let x = first.doc.items[j];
        assert(x == closed.doc.items[j]);
        assert(closed.doc.items.contains(x));
        assert(canvas.doc.items.contains(x) && x.id != item.id);
        let k = choose|k: int| 0 <= k < canvas.doc.items.len() && canvas.doc.items[k] == x;
        assert(canvas.doc.items[k].id != item.id);
    }
    lemma_for_session(first.doc, n, session);
    lemma_activate(first, item.id, other, session);
    let back = closed.then_take_back(None);
    assert(back == first.then_reveal_session(session));
    if !item.sleeping {
        lemma_spares_trans(closed.out, first.out, back.out, session);
    }
}

/// A card that is no shell comes back as it was when it is taken back: a note with what its editor
/// held when it was closed, written into the document or not.
pub proof fn law_a_closed_card_is_taken_back(
    canvas: Canvas,
    text: Option<Seq<char>>,
    other: u128,
)
    requires
        canvas.doc.sound(),
        canvas.active_card() is Some,
        !(canvas.active_card()->0.kind is Terminal),
        other != canvas.active_card()->0.id,
    ensures
        ({
            let item = canvas.active_card()->0;
            let kept = if item.kind is Note && text is Some && canvas.notes.contains(item.id) {
                Item { kind: ItemKind::Note { text: text->0 }, ..item }
            } else {
                item
            };
            let closed = canvas.then_close(false, text);
            let back = closed.then_take_back(None);
            &&& !closed.doc.has(item.id)
            &&& closed.doc.get(other) == canvas.doc.get(other)
            &&& as_it_was(back.doc.get(item.id), kept)
            &&& back.doc.get(other) == canvas.doc.get(other)
            &&& back.active == Some(item.id)
            &&& back.pending.reveal == Some(item.id)
        }),
{
    let item = canvas.active_card()->0;
    lemma_place_of(canvas.doc.items, canvas.active->0);
    let kept = if item.kind is Note && text is Some && canvas.notes.contains(item.id) {
        Item { kind: ItemKind::Note { text: text->0 }, ..item }
    } else {
        item
    };
    let closed = canvas.then_close(false, text);
    assert(closed == canvas.then_remember(kept, None));
    let card = ClosedCard { item: kept, session: None, seq: after_seq(canvas.closed_seq) };
    lemma_remember(canvas, kept, None, 0);
    law_a_change_is_about_one_card(canvas.doc, Op::Remove(item.id), other);
    assert(closed.closed.last() == card);
    assert(closed.closed[closed.closed.len() - 1] == card);
    lemma_put_back(closed, card, other, 0);
    let first = Canvas {
        closed: closed.closed.remove(closed.closed.len() - 1),
        toast: if closed.toast matches Some(t) && t.what is Closed {
            None
        } else {
            closed.toast
        },
        ..closed
    }.propose(Op::Upsert(kept)).then_reconcile();
    lemma_activate(first, item.id, other, 0);
    assert(closed.then_take_back(None) == first.then_reveal_item(item.id));
}

/// Once the wait for a closed shell is over its session is ended and its view is gone, and that
/// closing can be taken back no more.
pub proof fn law_a_forgotten_shell_is_ended(canvas: Canvas, seq: u64)
    requires
        closing_at(canvas.closed, seq) < canvas.closed.len(),
        canvas.closed[closing_at(canvas.closed, seq)].session is Some,
        forall|i: int, j: int|
            0 <= i < j < canvas.closed.len() ==> (#[trigger] canvas.closed[i]).seq != (
            #[trigger] canvas.closed[j]).seq,
    ensures
        ({
            let session = canvas.closed[closing_at(canvas.closed, seq)].session->0;
            let r = canvas.then_forget(seq);
            &&& !r.shells.drawn(session)
            &&& canvas.shells.alive(session) ==> r.out == canvas.out.push(
                Effect::Send(ClientMsg::Term { session, req: TermRequest::Close }),
            )
            &&& !canvas.shells.alive(session) ==> r.out == canvas.out
            &&& r.doc == canvas.doc
            &&& r.then_take_back(Some(seq)) == r
        }),
{
    let at = closing_at(canvas.closed, seq);
    lemma_closing_at(canvas.closed, seq);
    let session = canvas.closed[at].session->0;
    lemma_undrawn(canvas.shells.terminals, session, session);
    let rest = canvas.closed.remove(at);
    lemma_closing_at(rest, seq);
    let r = canvas.then_forget(seq);
    assert(r.closed == rest);
    if closing_at(rest, seq) < rest.len() {
        let k = closing_at(rest, seq);
        if k < at {
            assert(rest[k] == canvas.closed[k]);
            assert(canvas.closed[k].seq != canvas.closed[at].seq);
        } else {
            assert(rest[k] == canvas.closed[k + 1]);
            assert(canvas.closed[at].seq != canvas.closed[k + 1].seq);
        }
    }
}

pub(crate) proof fn lemma_closing_at(closed: Seq<ClosedCard<Seq<char>>>, seq: u64)
    ensures
        0 <= closing_at(closed, seq) <= closed.len(),
        closing_at(closed, seq) < closed.len() ==> closed[closing_at(closed, seq)].seq == seq,
    decreases closed.len(),
{
    if closed.len() > 0 {
        lemma_closing_at(closed.drop_first(), seq);
    }
}

/// A toast goes when its time is up, and outlives the clock of every older one: of any shown while
/// the number was lower, replaced or dropped since.
pub proof fn law_a_toast_outlives_the_clock_of_every_older(
    canvas: Canvas,
    first: ToastKind<Seq<char>>,
    later: Canvas,
    second: ToastKind<Seq<char>>,
    millis: u64,
)
    requires
        canvas.toast_seq < later.toast_seq < u64::MAX,
    ensures
        ({
            let one = canvas.then_toast(first, millis);
            let two = later.then_toast(second, millis);
            let early = one.toast->0.seq;
            let late = two.toast->0.seq;
            &&& one.then_toast_over(early).toast is None
            &&& two.then_toast_over(early) == two
            &&& two.then_toast_over(late).toast is None
            &&& two.toast->0.what == second
        }),
{
}

/// The number of the toasts goes up by one with each, and stays where a toast is dropped: when its
/// time is up, when it is pressed, when a closed card is taken back and when one is forgotten.
pub proof fn law_the_number_of_the_toasts_only_grows(
    canvas: Canvas,
    what: ToastKind<Seq<char>>,
    millis: u64,
    seq: u64,
    closing: Option<u64>,
)
    ensures
        canvas.toast_seq < u64::MAX ==> canvas.then_toast(what, millis).toast_seq
            == canvas.toast_seq + 1,
        canvas.then_toast_over(seq).toast_seq == canvas.toast_seq,
        canvas.then_forget(seq).toast_seq == canvas.toast_seq,
        canvas.then_take_back(closing).toast_seq == canvas.toast_seq,
        canvas.then_toast_pressed().toast_seq == canvas.toast_seq,
{
    lemma_taken_back(canvas, closing);
    match canvas.toast {
        Some(toast) => match toast.what {
            ToastKind::Closed { seq: s, .. } => lemma_taken_back(canvas, Some(s)),
            _ => {},
        },
        None => {},
    }
}

proof fn lemma_taken_back(canvas: Canvas, closing: Option<u64>)
    ensures
        canvas.then_take_back(closing).toast_seq == canvas.toast_seq,
{
    let at = chosen_closing(canvas.closed, closing);
    if 0 <= at < canvas.closed.len() {
        let card = canvas.closed[at];
        let put = Canvas {
            closed: canvas.closed.remove(at),
            toast: if canvas.toast matches Some(t) && t.what is Closed {
                None
            } else {
                canvas.toast
            },
            ..canvas
        }.propose(Op::Upsert(card.item));
        law_reconciling_draws_what_is_here(put, 0);
    }
}

} // verus!
