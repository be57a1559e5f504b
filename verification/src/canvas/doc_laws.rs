//! What holds of the document whatever changes it.
use vstd::prelude::*;

use crate::canvas::doc::{
    highest, lemma_place_is, lemma_place_of, over, place_for, place_of, reading_ids, reading_keys,
    top_of, without, Doc, Item, ItemKind, Op,
};
use crate::canvas::view::cards::stepped;
use crate::list::{first_index, lemma_first_index};
use crate::order::{before, lemma_an_order};

verus! {

/// The card a change is about.
pub open spec fn about(op: Op<Seq<char>>) -> u128 {
    match op {
        Op::Upsert(item) => item.id,
        Op::Place { id, .. } => id,
        Op::Remove(id) => id,
        Op::Raise(id) => id,
    }
}

/// What a change makes of the card it is about.
pub open spec fn made_of(doc: Doc, op: Op<Seq<char>>) -> Option<Item<Seq<char>>> {
    match op {
        Op::Upsert(item) => Some(item),
        Op::Place { id, rect } => match doc.get(id) {
            Some(item) => Some(Item { rect, ..item }),
            None => None,
        },
        Op::Remove(id) => None,
        Op::Raise(id) => match doc.get(id) {
            Some(item) => Some(Item { z: over(highest(doc.items)), ..item }),
            None => None,
        },
    }
}

/// The cards with one identity are told apart from the others by it.
pub proof fn lemma_has(doc: Doc, i: int)
    requires
        0 <= i < doc.items.len(),
    ensures
        doc.has(doc.items[i].id),
{
    lemma_place_of(doc.items, doc.items[i].id);
}

/// A card of a sound document is found by its identity.
pub proof fn lemma_get(doc: Doc, i: int)
    requires
        doc.sound(),
        0 <= i < doc.items.len(),
    ensures
        doc.get(doc.items[i].id) == Some(doc.items[i]),
        place_of(doc.items, doc.items[i].id) == i,
{
    lemma_place_is(doc.items, doc.items[i].id, i);
}

/// What is left of the cards without one.
pub(crate) proof fn lemma_without(items: Seq<Item<Seq<char>>>, id: u128)
    ensures
        forall|x: Item<Seq<char>>| #[trigger]
            without(items, id).contains(x) <==> (items.contains(x) && x.id != id),
    decreases items.len(),
{
    if items.len() > 0 {
        let init = items.drop_last();
        lemma_without(init, id);
        assert(items == init.push(items.last()));
        assert forall|x: Item<Seq<char>>| #[trigger] without(items, id).contains(x) <==> (
        items.contains(x) && x.id != id) by {
            lemma_push_contains(init, items.last(), x);
            lemma_push_contains(without(init, id), items.last(), x);
        }
    }
}

proof fn lemma_push_contains(s: Seq<Item<Seq<char>>>, last: Item<Seq<char>>, x: Item<Seq<char>>)
    ensures
        s.push(last).contains(x) <==> (s.contains(x) || x == last),
{
    let all = s.push(last);
    if s.contains(x) {
        let i = choose|i: int| 0 <= i < s.len() && s[i] == x;
        assert(all[i] == x);
    }
    if x == last {
        assert(all[s.len() as int] == x);
    }
    if all.contains(x) {
        let i = choose|i: int| 0 <= i < all.len() && all[i] == x;
        if i < s.len() {
            assert(s[i] == x);
        }
    }
}

proof fn lemma_without_apart(items: Seq<Item<Seq<char>>>, id: u128)
    requires
        (Doc { items, lookers: Seq::empty() }).sound(),
    ensures
        (Doc { items: without(items, id), lookers: Seq::empty() }).sound(),
    decreases items.len(),
{
    if items.len() > 0 {
        let init = items.drop_last();
        assert((Doc { items: init, lookers: Seq::empty() }).sound());
        lemma_without_apart(init, id);
        lemma_without(init, id);
        if items.last().id != id {
            let rest = without(init, id);
            let all = rest.push(items.last());
            assert forall|i: int, j: int| 0 <= i < j < all.len() implies (#[trigger] all[i]).id
                != (#[trigger] all[j]).id by {
                if j == rest.len() {
                    assert(rest.contains(rest[i]));
                    assert(init.contains(rest[i]));
                    let k = choose|k: int| 0 <= k < init.len() && init[k] == rest[i];
                    assert(items[k].id != items[items.len() - 1].id);
                }
            }
        }
    }
}

proof fn lemma_place_same(a: Seq<Item<Seq<char>>>, b: Seq<Item<Seq<char>>>, id: u128)
    requires
        a.len() == b.len(),
        forall|i: int| 0 <= i < a.len() ==> (#[trigger] a[i]).id == b[i].id,
    ensures
        place_of(a, id) == place_of(b, id),
{
    lemma_place_of(a, id);
    let at = place_of(a, id);
    assert forall|i: int| 0 <= i < at implies (#[trigger] b[i]).id != id by {
        assert(a[i].id == b[i].id);
    }
    if at < a.len() {
        assert(a[at].id == b[at].id);
    }
    lemma_place_is(b, id, at);
}

/// A change touches the card it is about and no other, and keeps the identities apart.
pub proof fn law_a_change_is_about_one_card(doc: Doc, op: Op<Seq<char>>, other: u128)
    requires
        doc.sound(),
        other != about(op),
    ensures
        doc.after(op).sound(),
        doc.after(op).get(about(op)) == made_of(doc, op),
        doc.after(op).get(other) == doc.get(other),
        doc.after(op).lookers == doc.lookers,
{
    let items = doc.items;
    let id = about(op);
    let next = doc.after(op);
    let at = place_of(items, id);
    lemma_place_of(items, id);
    lemma_place_of(items, other);
    match op {
        Op::Remove(_) => {
            lemma_without(items, id);
            assert((Doc { items, lookers: Seq::empty() }).sound());
            lemma_without_apart(items, id);
            assert(next.sound()) by {
                let bare = Doc { items: next.items, lookers: Seq::empty() };
                assert(bare.sound());
                assert forall|i: int, j: int| 0 <= i < j < next.items.len() implies (
                #[trigger] next.items[i]).id != (#[trigger] next.items[j]).id by {
                    assert(bare.items[i].id != bare.items[j].id);
                }
            }
            lemma_place_of(next.items, id);
            if next.has(id) {
                assert(next.items.contains(next.items[place_of(next.items, id)]));
            }
            lemma_place_of(next.items, other);
            if let Some(x) = doc.get(other) {
                assert(items.contains(x));
                assert(next.items.contains(x));
                let k = choose|k: int| 0 <= k < next.items.len() && next.items[k] == x;
                lemma_get(next, k);
            } else if let Some(y) = next.get(other) {
                assert(next.items.contains(y));
                assert(items.contains(y));
                let k = choose|k: int| 0 <= k < items.len() && items[k] == y;
                lemma_has(doc, k);
            }
        },
        _ => {
            if at < items.len() {
                assert forall|i: int| 0 <= i < items.len() implies (#[trigger] items[i]).id
                    == next.items[i].id by {}
                lemma_place_same(items, next.items, id);
                lemma_place_same(items, next.items, other);
                assert forall|i: int, j: int| 0 <= i < j < next.items.len() implies (
                #[trigger] next.items[i]).id != (#[trigger] next.items[j]).id by {
                    assert(items[i].id != items[j].id);
                }
            } else if let Op::Upsert(item) = op {
                assert(next.items == items.push(item));
                lemma_place_is(next.items, id, items.len() as int);
                let p = place_of(items, other);
                if p < items.len() {
                    lemma_place_is(next.items, other, p);
                } else {
                    lemma_place_is(next.items, other, next.items.len() as int);
                }
            }
        },
    }
}

/// The echo of a change that was made here first changes nothing. A raising is another matter: it
/// puts the card over all the others again.
pub proof fn law_an_echo_changes_nothing(doc: Doc, op: Op<Seq<char>>)
    requires
        doc.sound(),
        !(op is Raise),
    ensures
        doc.after(op).after(op) == doc.after(op),
{
    let items = doc.items;
    let id = about(op);
    let next = doc.after(op);
    lemma_place_of(items, id);
    let at = place_of(items, id);
    match op {
        Op::Remove(_) => {
            lemma_without(items, id);
            assert forall|i: int| 0 <= i < next.items.len() implies (#[trigger] next.items[i]).id
                != id by {
                assert(next.items.contains(next.items[i]));
            }
            lemma_without_none(next.items, id);
        },
        _ => {
            if at < items.len() {
                lemma_place_same(items, next.items, id);
                assert(next.after(op).items =~= next.items);
            } else if let Op::Upsert(item) = op {
                lemma_place_is(next.items, id, items.len() as int);
                assert(next.after(op).items =~= next.items);
            }
        },
    }
}

proof fn lemma_without_none(items: Seq<Item<Seq<char>>>, id: u128)
    requires
        forall|i: int| 0 <= i < items.len() ==> (#[trigger] items[i]).id != id,
    ensures
        without(items, id) == items,
    decreases items.len(),
{
    if items.len() > 0 {
        let init = items.drop_last();
        assert forall|i: int| 0 <= i < init.len() implies (#[trigger] init[i]).id != id by {
            assert(init[i] == items[i]);
        }
        lemma_without_none(init, id);
        assert(items[items.len() - 1].id != id);
        assert(items == init.push(items.last()));
    }
}

proof fn lemma_highest(items: Seq<Item<Seq<char>>>)
    ensures
        forall|i: int| 0 <= i < items.len() ==> (#[trigger] items[i]).z <= highest(items),
    decreases items.len(),
{
    if items.len() > 0 {
        let init = items.drop_last();
        lemma_highest(init);
        assert forall|i: int| 0 <= i < items.len() implies (#[trigger] items[i]).z <= highest(
            items,
        ) by {
            if i < init.len() {
                assert(init[i] == items[i]);
            }
        }
    }
}

proof fn lemma_highest_is(items: Seq<Item<Seq<char>>>, z: u32)
    requires
        forall|i: int| 0 <= i < items.len() ==> (#[trigger] items[i]).z <= z,
    ensures
        highest(items) <= z,
    decreases items.len(),
{
    if items.len() > 0 {
        let init = items.drop_last();
        assert forall|i: int| 0 <= i < init.len() implies (#[trigger] init[i]).z <= z by {
            assert(init[i] == items[i]);
        }
        lemma_highest_is(init, z);
        assert(items[items.len() - 1].z <= z);
    }
}

proof fn lemma_top(items: Seq<Item<Seq<char>>>, at: int)
    requires
        0 <= at < items.len(),
        forall|i: int| 0 <= i < items.len() && i != at ==> (#[trigger] items[i]).z < items[at].z,
    ensures
        top_of(items) == Some(items[at]),
    decreases items.len(),
{
    lemma_highest_is(items, items[at].z);
    lemma_highest(items);
    let n = items.len() - 1;
    if at != n {
        assert(items[n].z < items[at].z);
        let init = items.drop_last();
        assert forall|i: int| 0 <= i < init.len() && i != at implies (#[trigger] init[i]).z
            < init[at].z by {
            assert(init[i] == items[i]);
        }
        lemma_top(init, at);
    }
}

/// The topmost card is on the canvas.
pub proof fn lemma_top_is_here(doc: Doc)
    ensures
        top_of(doc.items) matches Some(top) ==> doc.has(top.id),
        doc.items.len() > 0 ==> top_of(doc.items) is Some,
{
    lemma_top_index(doc.items);
    if let Some(top) = top_of(doc.items) {
        let i = choose|i: int| 0 <= i < doc.items.len() && doc.items[i] == top;
        lemma_has(doc, i);
    }
}

proof fn lemma_top_index(items: Seq<Item<Seq<char>>>)
    ensures
        top_of(items) matches Some(top) ==> items.contains(top),
        items.len() > 0 ==> top_of(items) is Some,
    decreases items.len(),
{
    if items.len() > 0 {
        let init = items.drop_last();
        lemma_top_index(init);
        assert(init.len() == 0 ==> highest(init) == 0);
        if items.last().z >= highest(items) {
            assert(items[items.len() - 1] == items.last());
        } else if let Some(top) = top_of(init) {
            let i = choose|i: int| 0 <= i < init.len() && init[i] == top;
            assert(items[i] == top);
        }
    }
}

/// A raised card is over all the others, while there is a number left above theirs.
pub proof fn law_a_raised_card_is_on_top(doc: Doc, id: u128)
    requires
        doc.sound(),
        doc.has(id),
        highest(doc.items) < u32::MAX,
    ensures
        doc.after(Op::Raise(id)).is_top(id),
{
    let items = doc.items;
    lemma_place_of(items, id);
    let at = place_of(items, id);
    let next = doc.after(Op::Raise(id)).items;
    lemma_highest(items);
    assert forall|i: int| 0 <= i < next.len() && i != at implies (#[trigger] next[i]).z
        < next[at].z by {
        assert(next[i] == items[i]);
    }
    lemma_top(next, at);
}

/// The card of a session is found by it, where it is the only one.
pub proof fn lemma_for_session(doc: Doc, i: int, session: u128)
    requires
        0 <= i < doc.items.len(),
        doc.items[i].kind == (ItemKind::<Seq<char>>::Terminal { session }),
        forall|j: int|
            0 <= j < doc.items.len() && j != i ==> (#[trigger] doc.items[j]).kind != (
            ItemKind::<Seq<char>>::Terminal { session }),
    ensures
        doc.for_session(session) == Some(doc.items[i]),
{
    lemma_place_for_is(doc.items, i, session);
}

proof fn lemma_place_for_is(items: Seq<Item<Seq<char>>>, i: int, session: u128)
    requires
        0 <= i < items.len(),
        items[i].kind == (ItemKind::<Seq<char>>::Terminal { session }),
        forall|j: int|
            0 <= j < items.len() && j != i ==> (#[trigger] items[j]).kind != (
            ItemKind::<Seq<char>>::Terminal { session }),
    ensures
        place_for(items, session) == i,
    decreases items.len(),
{
    if i > 0 {
        assert(items[0].kind != (ItemKind::<Seq<char>>::Terminal { session }));
        let rest = items.drop_first();
        assert forall|j: int| 0 <= j < rest.len() && j != i - 1 implies (#[trigger] rest[j]).kind
            != (ItemKind::<Seq<char>>::Terminal { session }) by {
            assert(rest[j] == items[j + 1]);
        }
        lemma_place_for_is(rest, i - 1, session);
    }
}

/// A session's card is a terminal of it, and on the canvas.
pub proof fn lemma_session_card(doc: Doc, session: u128)
    ensures
        doc.for_session(session) matches Some(item) ==> {
            &&& doc.items.contains(item)
            &&& doc.has(item.id)
            &&& item.kind == (ItemKind::<Seq<char>>::Terminal { session })
        },
{
    lemma_place_for(doc.items, session);
    if let Some(item) = doc.for_session(session) {
        lemma_has(doc, place_for(doc.items, session));
    }
}

proof fn lemma_place_for(items: Seq<Item<Seq<char>>>, session: u128)
    ensures
        0 <= place_for(items, session) <= items.len(),
        place_for(items, session) < items.len() ==> items[place_for(items, session)].kind == (
        ItemKind::<Seq<char>>::Terminal { session }),
    decreases items.len(),
{
    if items.len() > 0 {
        lemma_place_for(items.drop_first(), session);
    }
}

/// Walking the cards names each of them once.
pub proof fn law_the_walk_names_each_card_once(doc: Doc)
    requires
        doc.sound(),
        doc.items.len() <= usize::MAX,
    ensures
        reading_ids(doc.items).len() == doc.items.len(),
        reading_ids(doc.items).no_duplicates(),
        forall|i: int|
            0 <= i < doc.items.len() ==> reading_ids(doc.items).contains(
                (#[trigger] doc.items[i]).id,
            ),
        forall|i: int|
            0 <= i < reading_ids(doc.items).len() ==> doc.has(
                #[trigger] reading_ids(doc.items)[i],
            ),
{
    let items = doc.items;
    let keys = reading_keys(items);
    let order = lemma_an_order(keys);
    let ids = reading_ids(items);
    assert forall|i: int, j: int| 0 <= i < ids.len() && 0 <= j < ids.len() && i != j implies ids[i]
        != ids[j] by {
        if i < j {
            assert(before(keys, order[i], order[j]));
        } else {
            assert(before(keys, order[j], order[i]));
        }
        if order[i] < order[j] {
            assert(items[order[i] as int].id != items[order[j] as int].id);
        } else {
            assert(order[i] != order[j]);
            assert(items[order[j] as int].id != items[order[i] as int].id);
        }
    }
    assert forall|i: int| 0 <= i < items.len() implies ids.contains((#[trigger] items[i]).id) by {
        assert(order.contains(i as usize));
        let k = choose|k: int| 0 <= k < order.len() && order[k] == i as usize;
        assert(ids[k] == items[i].id);
    }
    assert forall|i: int| 0 <= i < ids.len() implies doc.has(#[trigger] ids[i]) by {
        lemma_has(doc, order[i] as int);
    }
}

/// A step back along the walk undoes a step forward, and a step forward one back.
pub proof fn law_a_step_back_undoes_a_step_forward(doc: Doc, active: u128, forward: bool)
    requires
        doc.sound(),
        doc.has(active),
        doc.items.len() <= usize::MAX,
    ensures
        ({
            let ids = reading_ids(doc.items);
            let next = stepped(ids, Some(active), forward);
            &&& next is Some
            &&& doc.has(next->0)
            &&& stepped(ids, next, !forward) == Some(active)
        }),
{
    law_the_walk_names_each_card_once(doc);
    let ids = reading_ids(doc.items);
    lemma_place_of(doc.items, active);
    assert(ids.contains(doc.items[place_of(doc.items, active)].id));
    lemma_first_index(ids, active);
    let next = stepped(ids, Some(active), forward);
    let at = first_index(ids, active);
    let last = ids.len() - 1;
    let to = if forward {
        if at == last {
            0
        } else {
            at + 1
        }
    } else if at == 0 {
        last
    } else {
        at - 1
    };
    assert(next == Some(ids[to]));
    lemma_first_index(ids, ids[to]);
    assert(ids.contains(ids[to]));
    let back = first_index(ids, ids[to]);
    if back != to {
        assert(ids[back] != ids[to]);
    }
}

} // verus!
