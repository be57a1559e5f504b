//! What the canvas promises to keep for its cards: their views, their places and the way back.
use vstd::prelude::*;

use crate::agent::AgentStatus;
use crate::canvas::doc::{place_of, reading_ids, rect_same, Doc, Item, ItemKind, Op, Rect};
use crate::canvas::doc_laws::{law_a_change_is_about_one_card, law_the_walk_names_each_card_once};
use crate::canvas::live_laws::{goes_on, said};
use crate::canvas::msg::{Aim, ClientMsg, Done, Effect, TermRequest};
use crate::canvas::shells::{shells_without, Shell, ShellState};
use crate::canvas::terms::{first_for, lemma_card, lemma_first_is, lemma_shell_shown, shell_shown};
use crate::canvas::view::cards::{
    arranged_row, chosen_closing, closing_at, file_cards, is_file_card, kept_notes, new_files,
    new_notes, note_cards, paths_of, still_files, NewFile,
};
use crate::canvas::view::live::{still_closed, still_heading};
use crate::canvas::view::{Canvas, ClosedCard, Heading, ToastKind};
use crate::list::lemma_first_index;
use crate::sorted::{ascending, lemma_all_inserted};

verus! {

/// The card shows a file.
pub open spec fn shows_a_file(item: Item<Seq<char>>) -> bool {
    item.kind is File
}

/// The file the card shows.
pub open spec fn file_of(item: Item<Seq<char>>) -> (u128, Seq<char>) {
    (
        item.id,
        match item.kind {
            ItemKind::File { path } => path,
            _ => Seq::empty(),
        },
    )
}

proof fn lemma_file_cards(items: Seq<Item<Seq<char>>>)
    ensures
        file_cards(items) == items.filter(|i: Item<Seq<char>>| shows_a_file(i)).map_values(
            |i: Item<Seq<char>>| file_of(i),
        ),
    decreases items.len(),
{
    reveal(Seq::filter);
    let pick = |i: Item<Seq<char>>| shows_a_file(i);
    let put = |i: Item<Seq<char>>| file_of(i);
    if items.len() > 0 {
        lemma_file_cards(items.drop_last());
        let init = items.drop_last().filter(pick);
        assert(init.push(items.last()).map_values(put) =~= init.map_values(put).push(
            file_of(items.last()),
        ));
    } else {
        assert(items.filter(pick).map_values(put) =~= Seq::<(u128, Seq<char>)>::empty());
    }
}

proof fn lemma_file_there(items: Seq<Item<Seq<char>>>, id: u128, path: Seq<char>)
    ensures
        file_cards(items).contains((id, path)) <==> exists|i: int|
            0 <= i < items.len() && shows_a_file(#[trigger] items[i]) && file_of(items[i]) == (
                id,
                path,
            ),
    decreases items.len(),
{
    if items.len() > 0 {
        let init = items.drop_last();
        lemma_file_there(init, id, path);
        let (was, now) = (file_cards(init), file_cards(items));
        let last = items.len() - 1;
        assert(now.contains((id, path)) <==> was.contains((id, path)) || (shows_a_file(items[last])
            && file_of(items[last]) == (id, path))) by {
            if was.contains((id, path)) {
                let k = choose|k: int| 0 <= k < was.len() && was[k] == (id, path);
                assert(now[k] == (id, path));
            }
            if shows_a_file(items[last]) && file_of(items[last]) == (id, path) {
                assert(now[now.len() - 1] == (id, path));
            }
            if now.contains((id, path)) {
                let k = choose|k: int| 0 <= k < now.len() && now[k] == (id, path);
                if k < was.len() {
                    assert(was[k] == (id, path));
                }
            }
        }
        if exists|i: int|
            0 <= i < init.len() && shows_a_file(#[trigger] init[i]) && file_of(init[i]) == (
                id,
                path,
            ) {
            let i = choose|i: int|
                0 <= i < init.len() && shows_a_file(#[trigger] init[i]) && file_of(init[i]) == (
                    id,
                    path,
                );
            assert(items[i] == init[i]);
        }
        if exists|i: int|
            0 <= i < items.len() && shows_a_file(#[trigger] items[i]) && file_of(items[i]) == (
                id,
                path,
            ) {
            let i = choose|i: int|
                0 <= i < items.len() && shows_a_file(#[trigger] items[i]) && file_of(items[i]) == (
                    id,
                    path,
                );
            if i < last {
                assert(init[i] == items[i]);
            }
        }
    }
}

/// The host is asked for the file's text.
pub open spec fn asked_to_read(path: Seq<char>) -> Done {
    Effect::Send(ClientMsg::ReadFile { path })
}

/// The host is asked to watch the files.
pub open spec fn asked_to_watch(paths: Seq<Seq<char>>) -> Done {
    Effect::Send(ClientMsg::WatchFiles { paths })
}

proof fn lemma_file_views(canvas: Canvas, cards: Seq<(u128, Seq<char>)>, id: u128)
    ensures
        ({
            let r = canvas.then_file_views(cards);
            &&& goes_on(canvas, r)
            &&& r.files.contains(id) <==> canvas.files.contains(id) || is_file_card(cards, id)
            &&& r.watched == canvas.watched && r.doc == canvas.doc
            &&& forall|i: int|
                0 <= i < cards.len() && !canvas.files.contains((#[trigger] cards[i]).0) && (forall|
                    j: int,
                |
                    0 <= j < i ==> (#[trigger] cards[j]).0 != cards[i].0) ==> said(
                    canvas,
                    r,
                ).contains(asked_to_read(cards[i].1))
            &&& (forall|i: int|
                0 <= i < cards.len() ==> canvas.files.contains((#[trigger] cards[i]).0)) ==> r
                == canvas
        }),
    decreases cards.len(),
{
    if cards.len() == 0 {
        assert(canvas.out.take(canvas.out.len() as int) =~= canvas.out);
    } else {
        let init = cards.drop_last();
        let last = cards.len() - 1;
        let mid = canvas.then_file_views(init);
        let r = canvas.then_file_views(cards);
        lemma_file_views(canvas, init, id);
        lemma_file_views(canvas, init, cards[last].0);
        assert(r.out.take(canvas.out.len() as int) =~= mid.out.take(canvas.out.len() as int));
        assert(is_file_card(cards, id) <==> is_file_card(init, id) || cards[last].0 == id) by {
            if is_file_card(init, id) {
                let i = choose|i: int| 0 <= i < init.len() && (#[trigger] init[i]).0 == id;
                assert(cards[i].0 == id);
            }
            if is_file_card(cards, id) {
                let i = choose|i: int| 0 <= i < cards.len() && (#[trigger] cards[i]).0 == id;
                if i < last {
                    assert(init[i].0 == id);
                }
            }
        }
        if r.files != mid.files {
            assert(r.files.contains(id) <==> mid.files.contains(id) || id == cards[last].0) by {
                if mid.files.contains(id) {
                    let k = choose|k: int| 0 <= k < mid.files.len() && mid.files[k] == id;
                    assert(r.files[k] == id);
                }
                if id == cards[last].0 {
                    assert(r.files[mid.files.len() as int] == id);
                }
                if r.files.contains(id) {
                    let k = choose|k: int| 0 <= k < r.files.len() && r.files[k] == id;
                    if k < mid.files.len() {
                        assert(mid.files[k] == id);
                    }
                }
            }
        }
        assert forall|i: int|
            0 <= i < cards.len() && !canvas.files.contains((#[trigger] cards[i]).0) && (forall|
                j: int,
            |
                0 <= j < i ==> (#[trigger] cards[j]).0 != cards[i].0) implies said(
            canvas,
            r,
        ).contains(asked_to_read(cards[i].1)) by {
            let (was, now) = (said(canvas, mid), said(canvas, r));
            if i < last {
                assert(init[i] == cards[i]);
                assert forall|j: int| 0 <= j < i implies (#[trigger] init[j]).0 != init[i].0 by {
                    assert(cards[j].0 != cards[i].0);
                }
                let k = choose|k: int|
                    0 <= k < was.len() && was[k] == asked_to_read(cards[i].1);
                assert(now[k] == was[k]);
            } else {
                assert(!is_file_card(init, cards[last].0)) by {
                    if is_file_card(init, cards[last].0) {
                        let j = choose|j: int|
                            0 <= j < init.len() && (#[trigger] init[j]).0 == cards[last].0;
                        assert(cards[j].0 != cards[last].0);
                    }
                }
                assert(now[was.len() as int] == asked_to_read(cards[i].1));
            }
        }
        if forall|i: int|
            0 <= i < cards.len() ==> canvas.files.contains((#[trigger] cards[i]).0) {
            assert forall|i: int| 0 <= i < init.len() implies canvas.files.contains(
                (#[trigger] init[i]).0,
            ) by {
                assert(canvas.files.contains(cards[i].0));
            }
            assert(canvas.files.contains(cards[last].0));
        }
    }
}

proof fn lemma_still_files(files: Seq<u128>, cards: Seq<(u128, Seq<char>)>)
    ensures
        still_files(files, cards) == files.filter(|id: u128| is_file_card(cards, id)),
    decreases files.len(),
{
    reveal(Seq::filter);
    if files.len() > 0 {
        lemma_still_files(files.drop_last(), cards);
    }
}

/// Some file card has this identity.
pub open spec fn a_file_has(items: Seq<Item<Seq<char>>>, id: u128) -> bool {
    exists|i: int| 0 <= i < items.len() && shows_a_file(#[trigger] items[i]) && items[i].id == id
}

/// Some file card shows this path.
pub open spec fn a_file_shows(items: Seq<Item<Seq<char>>>, path: Seq<char>) -> bool {
    exists|i: int|
        0 <= i < items.len() && (#[trigger] items[i]).kind == (ItemKind::File { path })
}

/// After the file cards are settled there is a view for each of them and for no other card; the host
/// was asked for the text of each that is new; and the host watches exactly the files they show, in
/// order, told of it only where that changed.
pub proof fn law_every_file_card_has_its_view(canvas: Canvas, id: u128, path: Seq<char>, at: int)
    requires
        canvas.doc.sound(),
        0 <= at < canvas.doc.items.len(),
    ensures
        ({
            let next = canvas.then_files();
            let items = canvas.doc.items;
            &&& goes_on(canvas, next)
            &&& next.files.contains(id) <==> a_file_has(items, id)
            &&& next.watched.contains(path) <==> a_file_shows(items, path)
            &&& ascending(next.watched)
            &&& next.watched != canvas.watched ==> next.out.len() > canvas.out.len()
                && next.out.last() == asked_to_watch(next.watched)
            &&& items[at].kind matches ItemKind::File { path: own } ==> (!canvas.files.contains(
                items[at].id,
            ) ==> said(canvas, next).contains(asked_to_read(own)))
            &&& (forall|i: int|
                0 <= i < items.len() && shows_a_file(#[trigger] items[i])
                    ==> canvas.files.contains(items[i].id)) && next.watched == canvas.watched
                ==> next.out == canvas.out
            &&& next.doc == canvas.doc
        }),
{
    let items = canvas.doc.items;
    let cards = file_cards(items);
    let viewed = canvas.then_file_views(cards);
    let next = canvas.then_files();
    lemma_file_cards(items);
    lemma_file_views(canvas, cards, id);
    lemma_still_files(viewed.files, cards);
    lemma_all_inserted(Seq::empty(), paths_of(cards));
    assert(is_file_card(cards, id) <==> a_file_has(items, id)) by {
        if is_file_card(cards, id) {
            let i = choose|i: int| 0 <= i < cards.len() && (#[trigger] cards[i]).0 == id;
            assert(cards.contains(cards[i]));
            lemma_file_there(items, id, cards[i].1);
        }
        if a_file_has(items, id) {
            let i = choose|i: int|
                0 <= i < items.len() && shows_a_file(#[trigger] items[i]) && items[i].id == id;
            lemma_file_there(items, id, file_of(items[i]).1);
            let k = choose|k: int| 0 <= k < cards.len() && cards[k] == (id, file_of(items[i]).1);
            assert(cards[k].0 == id);
        }
    }
    assert(paths_of(cards).contains(path) <==> a_file_shows(items, path)) by {
        if paths_of(cards).contains(path) {
            let i = choose|i: int| 0 <= i < paths_of(cards).len() && paths_of(cards)[i] == path;
            assert(cards.contains(cards[i]));
            lemma_file_there(items, cards[i].0, path);
            let k = choose|k: int|
                0 <= k < items.len() && shows_a_file(#[trigger] items[k]) && file_of(items[k]) == (
                    cards[i].0,
                    path,
                );
            assert(items[k].kind == (ItemKind::File { path }));
        }
        if a_file_shows(items, path) {
            let i = choose|i: int|
                0 <= i < items.len() && (#[trigger] items[i]).kind == (ItemKind::File { path });
            lemma_file_there(items, items[i].id, path);
            let k = choose|k: int| 0 <= k < cards.len() && cards[k] == (items[i].id, path);
            assert(paths_of(cards)[k] == path);
        }
    }
    lemma_filter_holds(viewed.files, cards, id);
    assert(next.out.take(canvas.out.len() as int) =~= viewed.out.take(canvas.out.len() as int));
    if let ItemKind::File { path: own } = items[at].kind {
        if !canvas.files.contains(items[at].id) {
            lemma_file_there(items, items[at].id, own);
            assert(shows_a_file(items[at]) && file_of(items[at]) == (items[at].id, own));
            let k = choose|k: int| 0 <= k < cards.len() && cards[k] == (items[at].id, own);
            lemma_apart(items, k);
            let (was, now) = (said(canvas, viewed), said(canvas, next));
            let j = choose|j: int| 0 <= j < was.len() && was[j] == asked_to_read(own);
            assert(now[j] == was[j]);
        }
    }
    if forall|i: int|
        0 <= i < items.len() && shows_a_file(#[trigger] items[i]) ==> canvas.files.contains(
            items[i].id,
        ) {
        assert forall|i: int| 0 <= i < cards.len() implies canvas.files.contains(
            (#[trigger] cards[i]).0,
        ) by {
            assert(cards.contains(cards[i]));
            lemma_file_there(items, cards[i].0, cards[i].1);
        }
    }
}

proof fn lemma_filter_holds(files: Seq<u128>, cards: Seq<(u128, Seq<char>)>, id: u128)
    ensures
        files.filter(|f: u128| is_file_card(cards, f)).contains(id) <==> files.contains(id)
            && is_file_card(cards, id),
    decreases files.len(),
{
    reveal(Seq::filter);
    let pick = |f: u128| is_file_card(cards, f);
    if files.len() > 0 {
        let init = files.drop_last();
        lemma_filter_holds(init, cards, id);
        lemma_in_pushed(init, files.last(), id);
        lemma_in_pushed(init.filter(pick), files.last(), id);
        assert(files =~= init.push(files.last()));
    }
}

proof fn lemma_in_pushed(s: Seq<u128>, last: u128, x: u128)
    ensures
        s.push(last).contains(x) <==> s.contains(x) || x == last,
{
    let all = s.push(last);
    if s.contains(x) {
        let i = choose|i: int| 0 <= i < s.len() && s[i] == x;
        assert(all[i] == x);
    }
    if x == last {
        assert(all[s.len() as int] == x);
    }
    if all.contains(x) {
        let i = choose|i: int| 0 <= i < all.len() && all[i] == x;
        if i < s.len() {
            assert(s[i] == x);
        }
    }
}

proof fn lemma_apart(items: Seq<Item<Seq<char>>>, k: int)
    requires
        (Doc { items, lookers: Seq::empty() }).sound(),
        0 <= k < file_cards(items).len(),
    ensures
        forall|j: int| 0 <= j < k ==> (#[trigger] file_cards(items)[j]).0 != file_cards(items)[k].0,
    decreases items.len(),
{
    let doc = Doc { items, lookers: Seq::empty() };
    let init = items.drop_last();
    let less = Doc { items: init, lookers: Seq::empty() };
    let (was, now) = (file_cards(init), file_cards(items));
    assert(less.sound()) by {
        assert forall|i: int, j: int| 0 <= i < j < less.items.len() implies (
        #[trigger] less.items[i]).id != (#[trigger] less.items[j]).id by {
            assert(doc.items[i].id != doc.items[j].id);
        }
    }
    if k < was.len() {
        lemma_apart(init, k);
        assert forall|j: int| 0 <= j < k implies (#[trigger] now[j]).0 != now[k].0 by {
            assert(now[j] == was[j] && now[k] == was[k]);
            assert(was[j].0 != was[k].0);
        }
    } else {
        assert forall|j: int| 0 <= j < k implies (#[trigger] now[j]).0 != now[k].0 by {
            assert(now[j] == was[j]);
            assert(was.contains(was[j]));
            lemma_file_there(init, was[j].0, was[j].1);
            let i = choose|i: int|
                0 <= i < init.len() && shows_a_file(#[trigger] init[i]) && file_of(init[i]) == (
                    was[j].0,
                    was[j].1,
                );
            assert(doc.items[i].id != doc.items[items.len() - 1].id);
        }
    }
}

/// The note cards are the cards of notes; those that have no editor get one, in turn, and an editor
/// whose card is gone goes.
pub proof fn law_every_note_has_its_editor(
    items: Seq<Item<Seq<char>>>,
    notes: Seq<u128>,
    cards: Seq<u128>,
)
    requires
        cards.no_duplicates(),
    ensures
        note_cards(items) == items.filter(|i: Item<Seq<char>>| i.kind is Note).map_values(
            |i: Item<Seq<char>>| i.id,
        ),
        new_notes(notes, cards) == cards.filter(|id: u128| !notes.contains(id)),
        kept_notes(notes, cards) == notes.filter(|id: u128| cards.contains(id)),
{
    lemma_note_cards(items);
    lemma_new_notes(notes, cards);
    lemma_kept_notes(notes, cards);
}

proof fn lemma_note_cards(items: Seq<Item<Seq<char>>>)
    ensures
        note_cards(items) == items.filter(|i: Item<Seq<char>>| i.kind is Note).map_values(
            |i: Item<Seq<char>>| i.id,
        ),
    decreases items.len(),
{
    reveal(Seq::filter);
    let pick = |i: Item<Seq<char>>| i.kind is Note;
    let put = |i: Item<Seq<char>>| i.id;
    if items.len() > 0 {
        lemma_note_cards(items.drop_last());
        let init = items.drop_last().filter(pick);
        assert(init.push(items.last()).map_values(put) =~= init.map_values(put).push(
            items.last().id,
        ));
    } else {
        assert(items.filter(pick).map_values(put) =~= Seq::<u128>::empty());
    }
}

proof fn lemma_new_notes(notes: Seq<u128>, cards: Seq<u128>)
    requires
        cards.no_duplicates(),
    ensures
        new_notes(notes, cards) == cards.filter(|id: u128| !notes.contains(id)),
        forall|id: u128| #[trigger]
            new_notes(notes, cards).contains(id) ==> cards.contains(id),
    decreases cards.len(),
{
    reveal(Seq::filter);
    if cards.len() > 0 {
        let init = cards.drop_last();
        let last = cards.last();
        lemma_new_notes(notes, init);
        let rest = new_notes(notes, init);
        assert(!init.contains(last)) by {
            if init.contains(last) {
                let i = choose|i: int| 0 <= i < init.len() && init[i] == last;
                assert(cards[i] == cards[cards.len() - 1]);
            }
        }
        assert((notes + rest).contains(last) <==> notes.contains(last)) by {
            if notes.contains(last) {
                let i = choose|i: int| 0 <= i < notes.len() && notes[i] == last;
                assert((notes + rest)[i] == last);
            }
            if (notes + rest).contains(last) {
                let i = choose|i: int| 0 <= i < (notes + rest).len() && (notes + rest)[i] == last;
                if i >= notes.len() {
                    assert(rest[i - notes.len()] == last);
                    assert(rest.contains(last));
                }
            }
        }
        assert forall|id: u128| #[trigger] new_notes(notes, cards).contains(id) implies
            cards.contains(id) by {
            let now = new_notes(notes, cards);
            let k = choose|k: int| 0 <= k < now.len() && now[k] == id;
            if k < rest.len() {
                assert(rest[k] == id);
                assert(rest.contains(id));
                let j = choose|j: int| 0 <= j < init.len() && init[j] == id;
                assert(cards[j] == id);
            } else {
                assert(cards[cards.len() - 1] == id);
            }
        }
    }
}

proof fn lemma_kept_notes(notes: Seq<u128>, cards: Seq<u128>)
    ensures
        kept_notes(notes, cards) == notes.filter(|id: u128| cards.contains(id)),
    decreases notes.len(),
{
    reveal(Seq::filter);
    if notes.len() > 0 {
        lemma_kept_notes(notes.drop_last(), cards);
    }
}

/// Every shell that is drawn hears the colours this client paints with, each once, in their order.
pub proof fn law_every_shell_hears_the_colours(canvas: Canvas, n: int)
    requires
        0 <= n <= canvas.shells.terminals.len(),
    ensures
        canvas.then_colors(n).out == canvas.out + canvas.shells.terminals.take(n).map_values(
            |s: Shell<Seq<char>>| tells_colours(s.session),
        ),
        canvas.then_colors(n).doc == canvas.doc && canvas.then_colors(n).shells == canvas.shells,
    decreases n,
{
    let put = |s: Shell<Seq<char>>| tells_colours(s.session);
    let all = canvas.shells.terminals;
    if n > 0 {
        law_every_shell_hears_the_colours(canvas, n - 1);
        assert(all.take(n).map_values(put) =~= all.take(n - 1).map_values(put).push(
            tells_colours(all[n - 1].session),
        ));
        assert(canvas.out + all.take(n).map_values(put) =~= (canvas.out + all.take(
            n - 1,
        ).map_values(put)).push(tells_colours(all[n - 1].session)));
    } else {
        assert(canvas.out + all.take(n).map_values(put) =~= canvas.out);
    }
}

/// The shell is told the colours this client paints with.
pub open spec fn tells_colours(session: u128) -> Done {
    Effect::Send(ClientMsg::Term { session, req: TermRequest::Colors })
}

/// A step goes to the card that is read next, or before: it is active and about to be in view, and a
/// terminal has the keyboard.
pub proof fn law_a_step_makes_the_next_card_active(
    canvas: Canvas,
    at: int,
    forward: bool,
    item: Item<Seq<char>>,
)
    requires
        canvas.doc.sound(),
        canvas.doc.items.len() <= usize::MAX,
        0 <= at < reading_ids(canvas.doc.items).len(),
        canvas.active == Some(reading_ids(canvas.doc.items)[at]),
        canvas.doc.items.contains(item),
        ({
            let order = reading_ids(canvas.doc.items);
            item.id == if forward {
                if at + 1 < order.len() {
                    order[at + 1]
                } else {
                    order[0]
                }
            } else if at > 0 {
                order[at - 1]
            } else {
                order[order.len() - 1]
            }
        }),
        item.kind matches ItemKind::Terminal { session } ==> first_for(
            canvas,
            session,
            place_of(canvas.doc.items, item.id),
        ),
    ensures
        ({
            let next = canvas.then_step(forward);
            &&& next.active == Some(item.id) && next.pending.reveal == Some(item.id)
            &&& item.kind matches ItemKind::Terminal { session } ==> next.pending.focus == Some(
                session,
            )
        }),
{
    let order = reading_ids(canvas.doc.items);
    law_the_walk_names_each_card_once(canvas.doc);
    lemma_first_index(order, order[at]);
    lemma_card(canvas.doc, item);
    if let ItemKind::Terminal { session } = item.kind {
        lemma_first_is(canvas, session, place_of(canvas.doc.items, item.id));
    }
}

/// A step in a direction goes to the nearest card there, where there is one; with no card active it
/// goes to the first that is read.
pub proof fn law_a_step_in_a_direction_goes_to_the_nearest(canvas: Canvas, nearest: u128)
    ensures
        canvas.active matches Some(id) && canvas.doc.has(id) ==> canvas.then_towards(Some(nearest))
            == canvas.then_go_to(nearest) && canvas.then_towards(None) == canvas,
        canvas.active is None ==> (if reading_ids(canvas.doc.items).len() > 0 {
            canvas.then_towards(Some(nearest)) == canvas.then_go_to(
                reading_ids(canvas.doc.items)[0],
            )
        } else {
            canvas.then_towards(Some(nearest)) == canvas
        }),
{
}

/// Arranging puts each card where it was given a place, and tells the host of those that moved
/// alone; every other card stays, and the camera opens out to show the blocks.
pub proof fn law_arranged_cards_take_their_places(
    canvas: Canvas,
    places: Seq<(u128, Rect)>,
    headings: Seq<Heading<Seq<char>, Seq<u128>>>,
    i: int,
    other: u128,
)
    requires
        canvas.doc.sound(),
        canvas.doc.items.len() > 0,
        0 <= i < places.len(),
        canvas.doc.has(places[i].0),
        forall|a: int, b: int|
            0 <= a < b < places.len() ==> (#[trigger] places[a]).0 != (#[trigger] places[b]).0,
        forall|a: int| 0 <= a < places.len() ==> (#[trigger] places[a]).0 != other,
    ensures
        ({
            let next = canvas.then_arranged(places, headings);
            let was = canvas.doc.get(places[i].0)->0;
            &&& next.doc.get(other) == canvas.doc.get(other)
            &&& rect_same(was.rect, places[i].1) ==> next.doc.get(places[i].0) == Some(was)
            &&& !rect_same(was.rect, places[i].1) ==> next.doc.get(places[i].0) == Some(
                Item { rect: places[i].1, ..was },
            )
            &&& next.headings == headings && next.following is None
            &&& next.out.last() == arranged_flight()
        }),
{
    lemma_placed_all(canvas, places, other);
    lemma_placed_at(canvas, places, i);
}

/// The camera opens out to show what was arranged.
pub open spec fn arranged_flight() -> Done {
    Effect::Fly(Aim::Arranged)
}

proof fn lemma_placed_sound(canvas: Canvas, id: u128, rect: Rect)
    requires
        canvas.doc.sound(),
    ensures
        canvas.then_place(id, rect).doc.sound(),
{
    law_a_change_is_about_one_card(
        canvas.doc,
        Op::Place { id, rect },
        if id == 0 {
            1
        } else {
            0
        },
    );
}

proof fn lemma_placed_all(canvas: Canvas, places: Seq<(u128, Rect)>, other: u128)
    requires
        canvas.doc.sound(),
        forall|a: int| 0 <= a < places.len() ==> (#[trigger] places[a]).0 != other,
    ensures
        canvas.then_place_all(places).doc.get(other) == canvas.doc.get(other),
        canvas.then_place_all(places).doc.sound(),
    decreases places.len(),
{
    if places.len() > 0 {
        let init = places.drop_last();
        assert forall|a: int| 0 <= a < init.len() implies (#[trigger] init[a]).0 != other by {
            assert(places[a].0 != other);
        }
        lemma_placed_all(canvas, init, other);
        let mid = canvas.then_place_all(init);
        let (id, rect) = places.last();
        assert(places[places.len() - 1].0 != other);
        law_a_change_is_about_one_card(mid.doc, Op::Place { id, rect }, other);
        lemma_placed_sound(mid, id, rect);
    }
}

proof fn lemma_placed_at(canvas: Canvas, places: Seq<(u128, Rect)>, i: int)
    requires
        canvas.doc.sound(),
        0 <= i < places.len(),
        canvas.doc.has(places[i].0),
        forall|a: int, b: int|
            0 <= a < b < places.len() ==> (#[trigger] places[a]).0 != (#[trigger] places[b]).0,
    ensures
        ({
            let next = canvas.then_place_all(places);
            let was = canvas.doc.get(places[i].0)->0;
            &&& rect_same(was.rect, places[i].1) ==> next.doc.get(places[i].0) == Some(was)
            &&& !rect_same(was.rect, places[i].1) ==> next.doc.get(places[i].0) == Some(
                Item { rect: places[i].1, ..was },
            )
        }),
    decreases places.len(),
{
    let init = places.drop_last();
    let mid = canvas.then_place_all(init);
    let last = places.len() - 1;
    let (id, rect) = places.last();
    if i < last {
        assert forall|a: int, b: int| 0 <= a < b < init.len() implies (#[trigger] init[a]).0 != (
        #[trigger] init[b]).0 by {
            assert(places[a].0 != places[b].0);
        }
        lemma_placed_at(canvas, init, i);
        assert(places[i].0 != places[last].0);
        lemma_mid_sound(canvas, init);
        law_a_change_is_about_one_card(mid.doc, Op::Place { id, rect }, places[i].0);
    } else {
        assert forall|a: int| 0 <= a < init.len() implies (#[trigger] init[a]).0 != id by {
            assert(places[a].0 != places[last].0);
        }
        lemma_placed_all(canvas, init, id);
        law_a_change_is_about_one_card(
            mid.doc,
            Op::Place { id, rect },
            if id == 0 {
                1
            } else {
                0
            },
        );
    }
}

proof fn lemma_mid_sound(canvas: Canvas, places: Seq<(u128, Rect)>)
    requires
        canvas.doc.sound(),
    ensures
        canvas.then_place_all(places).doc.sound(),
    decreases places.len(),
{
    if places.len() > 0 {
        lemma_mid_sound(canvas, places.drop_last());
        lemma_placed_sound(
            canvas.then_place_all(places.drop_last()),
            places.last().0,
            places.last().1,
        );
    }
}

/// What arranging reads of a card: where it lies, the directory and the repository its shell is in,
/// and how high it stands, which is how lately it was used.
pub proof fn law_what_arranging_reads_of_a_card(
    canvas: Canvas,
    item: Item<Seq<char>>,
    session: u128,
)
    requires
        canvas.doc.sound(),
        canvas.doc.items.contains(item),
    ensures
        ({
            let row = arranged_row(canvas, item.id);
            &&& row.id == item.id && row.rect == item.rect && row.activity == item.z
            &&& item.kind == (ItemKind::<Seq<char>>::Terminal { session }) ==> {
                &&& canvas.shells.sessions.contains_key(session) ==> row.cwd
                    == canvas.shells.sessions[session].cwd && row.repo
                    == canvas.shells.sessions[session].repo
                &&& !canvas.shells.sessions.contains_key(session) ==> row.cwd is None && row.repo
                    is None
            }
            &&& item.kind is Note || item.kind is Window || item.kind is Display ==> row.cwd is None
                && row.repo is None
            &&& item.kind is File ==> row.repo is None
        }),
{
    lemma_card(canvas.doc, item);
}

/// A new session is asked for where, with what command and under what title it was meant.
pub proof fn law_a_session_is_asked_for_as_meant(
    canvas: Canvas,
    cwd: Option<Seq<char>>,
    command: Seq<Seq<char>>,
    title: Option<Seq<char>>,
)
    ensures
        canvas.then_open(cwd, command, title).out == canvas.out.push(
            Effect::Send(ClientMsg::OpenSession { cwd, command, title }),
        ),
        canvas.then_open(cwd, command, title).doc == canvas.doc,
{
}

/// A card is called by the name the human gave it, and else by what it shows.
pub proof fn law_a_name_comes_first(canvas: Canvas, item: Item<Seq<char>>)
    ensures
        item.name matches Some(name) ==> canvas.card_title(item) == name,
        item.name is None ==> canvas.card_title(item) == canvas.derived_title(item),
{
}

/// A closed card is offered back by its title for five seconds, after which the closing is over.
pub proof fn law_a_closed_card_is_offered_back(
    canvas: Canvas,
    item: Item<Seq<char>>,
    session: Option<u128>,
)
    ensures
        ({
            let next = canvas.then_remember(item, session);
            let n = next.out.len();
            &&& next.toast matches Some(toast)
            &&& toast.what matches ToastKind::Closed { seq, title }
            &&& title == canvas.card_title(item)
            &&& n >= 2
            &&& next.out[n - 2] == toast_clock(toast.seq, 5_000)
            &&& next.out[n - 1] == close_clock(seq, 5_000)
        }),
{
}

/// The toast's clock.
pub open spec fn toast_clock(seq: u64, millis: u64) -> Done {
    Effect::ToastTimer { seq, millis }
}

/// The clock of a closing.
pub open spec fn close_clock(seq: u64, millis: u64) -> Done {
    Effect::CloseTimer { seq, millis }
}

/// What is taken back is the closing that was asked for, and with none asked for the latest.
pub proof fn law_the_closing_asked_for_is_taken_back(closed: Seq<ClosedCard<Seq<char>>>, i: int)
    requires
        0 <= i < closed.len(),
        forall|j: int| 0 <= j < i ==> (#[trigger] closed[j]).seq != closed[i].seq,
    ensures
        chosen_closing(closed, Some(closed[i].seq)) == i,
        chosen_closing(closed, None) == closed.len() - 1,
{
    lemma_closing_at(closed, i);
}

proof fn lemma_closing_at(closed: Seq<ClosedCard<Seq<char>>>, i: int)
    requires
        0 <= i < closed.len(),
        forall|j: int| 0 <= j < i ==> (#[trigger] closed[j]).seq != closed[i].seq,
    ensures
        closing_at(closed, closed[i].seq) == i,
    decreases closed.len(),
{
    if i > 0 {
        assert(closed[0].seq != closed[i].seq);
        let rest = closed.drop_first();
        assert forall|j: int| 0 <= j < i - 1 implies (#[trigger] rest[j]).seq
            != rest[i - 1].seq by {
            assert(closed[j + 1].seq != closed[i].seq);
        }
        lemma_closing_at(rest, i - 1);
    }
}

/// A closed shell can be taken back while its session lives; any other card always can. A heading
/// stays while one of its cards does.
pub proof fn law_what_can_still_be_taken_back(
    closed: Seq<ClosedCard<Seq<char>>>,
    shells: ShellState,
    headings: Seq<Heading<Seq<char>, Seq<u128>>>,
    doc: Doc,
)
    ensures
        still_closed(closed, shells) == closed.filter(
            |c: ClosedCard<Seq<char>>|
                c.session is None || shells.sessions.contains_key(c.session->0),
        ),
        still_heading(headings, doc) == headings.filter(
            |h: Heading<Seq<char>, Seq<u128>>|
                exists|i: int| 0 <= i < h.items.len() && doc.has(#[trigger] h.items[i]),
        ),
{
    lemma_still_closed(closed, shells);
    lemma_still_heading(headings, doc);
}

proof fn lemma_still_closed(closed: Seq<ClosedCard<Seq<char>>>, shells: ShellState)
    ensures
        still_closed(closed, shells) == closed.filter(
            |c: ClosedCard<Seq<char>>|
                c.session is None || shells.sessions.contains_key(c.session->0),
        ),
    decreases closed.len(),
{
    reveal(Seq::filter);
    if closed.len() > 0 {
        lemma_still_closed(closed.drop_last(), shells);
    }
}

proof fn lemma_still_heading(headings: Seq<Heading<Seq<char>, Seq<u128>>>, doc: Doc)
    ensures
        still_heading(headings, doc) == headings.filter(
            |h: Heading<Seq<char>, Seq<u128>>|
                exists|i: int| 0 <= i < h.items.len() && doc.has(#[trigger] h.items[i]),
        ),
    decreases headings.len(),
{
    reveal(Seq::filter);
    if headings.len() > 0 {
        lemma_still_heading(headings.drop_last(), doc);
    }
}

/// A live session that is to be drawn is attached at its own size and told the colours, and its
/// terminal hears how its agent stands; its card is active where none is. One that is drawn already,
/// or not alive, is left alone.
pub proof fn law_a_shell_is_attached_at_its_size(canvas: Canvas, session: u128)
    ensures
        ({
            let next = canvas.then_attach(session);
            let alive = canvas.shells.sessions.contains_key(session);
            let new = said(canvas, next);
            &&& !alive || shell_shown(canvas, session) ==> next == canvas
            &&& alive && !shell_shown(canvas, session) ==> {
                let one = canvas.shells.sessions[session];
                &&& shell_shown(next, session)
                &&& new.len() == (if canvas.shells.agents.contains_key(session) {
                    3int
                } else {
                    2int
                })
                &&& new[0] == attaches(session, one.cols, one.rows)
                &&& new[1] == tells_colours(session)
                &&& canvas.shells.agents.contains_key(session) ==> new[2] == tells_status(
                    session,
                    canvas.shells.agents[session].status,
                )
                &&& canvas.active is Some ==> next.active == canvas.active
            }
        }),
{
    lemma_shell_shown(canvas, session);
    let next = canvas.then_attach(session);
    lemma_shell_shown(next, session);
    if canvas.shells.sessions.contains_key(session) && !shell_shown(canvas, session) {
        let n = canvas.shells.terminals.len() as int;
        assert(next.shells.terminals[n].session == session);
    }
}

/// The session is attached at a size.
pub open spec fn attaches(session: u128, cols: u16, rows: u16) -> Done {
    Effect::Send(ClientMsg::Term { session, req: TermRequest::Attach { cols, rows } })
}

/// The terminal hears how its agent stands.
pub open spec fn tells_status(
    session: u128,
    status: AgentStatus<Seq<char>>,
) -> Done {
    Effect::AgentStatus { session, status }
}

/// Exactly the file cards without a view get one, in turn, each to land on the line it was opened at.
pub proof fn law_a_new_file_view_lands_on_its_line(canvas: Canvas, cards: Seq<(u128, Seq<char>)>)
    requires
        forall|a: int, b: int|
            0 <= a < b < cards.len() ==> (#[trigger] cards[a]).0 != (#[trigger] cards[b]).0,
    ensures
        new_files(canvas, cards) == cards.filter(
            |c: (u128, Seq<char>)| !canvas.files.contains(c.0),
        ).map_values(|c: (u128, Seq<char>)| view_for(canvas, c.0)),
    decreases cards.len(),
{
    reveal(Seq::filter);
    let pick = |c: (u128, Seq<char>)| !canvas.files.contains(c.0);
    let put = |c: (u128, Seq<char>)| view_for(canvas, c.0);
    if cards.len() > 0 {
        let init = cards.drop_last();
        let last = cards.last();
        assert forall|a: int, b: int| 0 <= a < b < init.len() implies (#[trigger] init[a]).0 != (
        #[trigger] init[b]).0 by {
            assert(cards[a].0 != cards[b].0);
        }
        law_a_new_file_view_lands_on_its_line(canvas, init);
        lemma_file_views(canvas, init, last.0);
        assert(!is_file_card(init, last.0)) by {
            if is_file_card(init, last.0) {
                let j = choose|j: int| 0 <= j < init.len() && (#[trigger] init[j]).0 == last.0;
                assert(cards[j].0 != cards[cards.len() - 1].0);
            }
        }
        lemma_focus_stays(canvas, init, last.0);
        let some = init.filter(pick);
        assert(some.push(last).map_values(put) =~= some.map_values(put).push(
            view_for(canvas, last.0),
        ));
    } else {
        assert(cards.filter(pick).map_values(put) =~= Seq::<NewFile>::empty());
    }
}

/// The view of a file card, and the line it is to land on.
pub open spec fn view_for(canvas: Canvas, id: u128) -> NewFile {
    NewFile {
        id,
        line: if canvas.file_focus.contains_key(id) {
            Some(canvas.file_focus[id])
        } else {
            None
        },
    }
}

proof fn lemma_focus_stays(canvas: Canvas, cards: Seq<(u128, Seq<char>)>, id: u128)
    requires
        !is_file_card(cards, id),
    ensures
        ({
            let next = canvas.then_file_views(cards);
            &&& next.file_focus.contains_key(id) == canvas.file_focus.contains_key(id)
            &&& canvas.file_focus.contains_key(id) ==> next.file_focus[id] == canvas.file_focus[id]
        }),
    decreases cards.len(),
{
    if cards.len() > 0 {
        let init = cards.drop_last();
        assert(!is_file_card(init, id)) by {
            if is_file_card(init, id) {
                let j = choose|j: int| 0 <= j < init.len() && (#[trigger] init[j]).0 == id;
                assert(cards[j].0 == id);
            }
        }
        assert(cards[cards.len() - 1].0 != id);
        lemma_focus_stays(canvas, init, id);
    }
}

/// A shell that is drawn no more is off the list of those that are, and every other stays.
pub proof fn law_one_shell_is_drawn_no_more(shells: ShellState, session: u128)
    ensures
        shells.then_undrawn(session).terminals == shells.terminals.filter(
            |s: Shell<Seq<char>>| s.session != session,
        ),
        shells.then_drawn(session).terminals == shells.terminals.push(
            Shell { session, title: None },
        ),
        shells.then_undrawn(session).sessions == shells.sessions,
        shells.then_drawn(session).sessions == shells.sessions,
{
    lemma_undrawn(shells.terminals, session);
}

proof fn lemma_undrawn(all: Seq<Shell<Seq<char>>>, session: u128)
    ensures
        shells_without(all, session) == all.filter(|s: Shell<Seq<char>>| s.session != session),
    decreases all.len(),
{
    reveal(Seq::filter);
    if all.len() > 0 {
        lemma_undrawn(all.drop_last(), session);
    }
}

} // verus!
