//! What holds of the canvas whatever it is told.
use vstd::prelude::*;

use crate::agent::{works, Agent};
use crate::canvas::actions::Action;
use crate::canvas::doc::{lemma_place_of, reading_keys, Doc, Item, Op};
use crate::canvas::doc_laws::law_a_change_is_about_one_card;
use crate::canvas::face::{Live, Pill};
use crate::canvas::frame::{maybe, Step};
use crate::canvas::reconcile_laws::law_reconciling_draws_what_is_here;
use crate::canvas::shells::ShellState;
use crate::canvas::view::live::{card_index, card_session, created_for, CanvasSync};
use crate::canvas::view::{is_waiting, waiting, Canvas, Keeper, Rename, ToastKind, POINT_FOR};
use crate::order::{before, lemma_an_order};
use crate::text::trim;
use crate::theme::Swatch;

verus! {

proof fn lemma_waiting(items: Seq<Item<Seq<char>>>, agents: Map<u128, Agent<Seq<char>>>)
    ensures
        waiting(items, agents).len() <= items.len(),
        forall|x: Item<Seq<char>>| #[trigger]
            waiting(items, agents).contains(x) <==> (items.contains(x) && is_waiting(x, agents)),
        (Doc { items, lookers: Seq::empty() }).sound() ==> (Doc {
            items: waiting(items, agents),
            lookers: Seq::empty(),
        }).sound(),
    decreases items.len(),
{
    if items.len() > 0 {
        let init = items.drop_last();
        let last = items.last();
        lemma_waiting(init, agents);
        let rest = waiting(init, agents);
        let all = waiting(items, agents);
        assert(items == init.push(last));
        assert forall|x: Item<Seq<char>>| #[trigger] all.contains(x) <==> (items.contains(x)
            && is_waiting(x, agents)) by {
            lemma_in_push(init, last, x);
            lemma_in_push(rest, last, x);
        }
        if (Doc { items, lookers: Seq::empty() }).sound() {
            assert((Doc { items: init, lookers: Seq::empty() }).sound());
            let next = Doc { items: all, lookers: Seq::empty() };
            if is_waiting(last, agents) {
                assert forall|i: int, j: int| 0 <= i < j < all.len() implies (
                #[trigger] next.items[i]).id != (#[trigger] next.items[j]).id by {
                    assert(next.items[i] == rest[i]);
                    if j < rest.len() {
                        assert((Doc { items: rest, lookers: Seq::empty() }).items[j].id != rest[i].id);
                    } else {
                        assert(rest.contains(rest[i]));
                        let k = choose|k: int| 0 <= k < init.len() && init[k] == rest[i];
                        assert(items[k].id != items[items.len() - 1].id);
                    }
                }
            }
        }
    }
}

proof fn lemma_in_push(s: Seq<Item<Seq<char>>>, last: Item<Seq<char>>, x: Item<Seq<char>>)
    ensures
        s.push(last).contains(x) <==> (s.contains(x) || x == last),
{
    let all = s.push(last);
    if s.contains(x) {
        let i = choose|i: int| 0 <= i < s.len() && s[i] == x;
        assert(all[i] == x);
    }
    if x == last {
        assert(all[s.len() as int] == x);
    }
    if all.contains(x) {
        let i = choose|i: int| 0 <= i < all.len() && all[i] == x;
        if i < s.len() {
            assert(s[i] == x);
        }
    }
}

/// The pair is a waiting card and its session.
pub open spec fn names_waiting(canvas: Canvas, pair: (u128, u128)) -> bool {
    exists|x: Item<Seq<char>>| #[trigger]
        canvas.doc.items.contains(x) && is_waiting(x, canvas.shells.agents) && pair
            == card_session(x)
}

/// Every card whose agent waits on the human is listed, once, and no other card is.
pub proof fn law_everyone_waiting_is_listed_once(canvas: Canvas)
    requires
        canvas.doc.sound(),
        canvas.doc.items.len() <= usize::MAX,
    ensures
        canvas.needs_you().len() == waiting(canvas.doc.items, canvas.shells.agents).len(),
        forall|i: int, j: int|
            0 <= i < j < canvas.needs_you().len() ==> (#[trigger] canvas.needs_you()[i]).0 != (
            #[trigger] canvas.needs_you()[j]).0,
        forall|i: int|
            0 <= i < canvas.doc.items.len() && is_waiting(
                #[trigger] canvas.doc.items[i],
                canvas.shells.agents,
            ) ==> canvas.needs_you().contains(card_session(canvas.doc.items[i])),
        forall|i: int|
            0 <= i < canvas.needs_you().len() ==> names_waiting(
                canvas,
                #[trigger] canvas.needs_you()[i],
            ),
{
    let items = canvas.doc.items;
    let agents = canvas.shells.agents;
    let found = waiting(items, agents);
    lemma_waiting(items, agents);
    assert((Doc { items, lookers: Seq::empty() }).sound());
    let sub = Doc { items: found, lookers: Seq::empty() };
    assert(sub.sound());
    let keys = reading_keys(found);
    let order = lemma_an_order(keys);
    let list = canvas.needs_you();
    assert forall|i: int, j: int| 0 <= i < j < list.len() implies (#[trigger] list[i]).0 != (
    #[trigger] list[j]).0 by {
        assert(before(keys, order[i], order[j]));
        let a = order[i] as int;
        let b = order[j] as int;
        if a < b {
            assert(sub.items[a].id != sub.items[b].id);
        } else {
            assert(a != b);
            assert(sub.items[b].id != sub.items[a].id);
        }
    }
    assert forall|i: int| 0 <= i < items.len() && is_waiting(
        #[trigger] items[i],
        agents,
    ) implies list.contains(card_session(items[i])) by {
        assert(items.contains(items[i]));
        assert(found.contains(items[i]));
        let k = choose|k: int| 0 <= k < found.len() && found[k] == items[i];
        assert(order.contains(k as usize));
        let p = choose|p: int| 0 <= p < order.len() && order[p] == k as usize;
        assert(list[p] == card_session(items[i]));
    }
    assert forall|i: int| 0 <= i < list.len() implies names_waiting(
        canvas,
        #[trigger] list[i],
    ) by {
        let x = found[order[i] as int];
        assert(found.contains(x));
        assert(items.contains(x));
    }
}

/// Going from one waiting agent to the next comes round to every one of them: from the one at a
/// place of the list to the one at the next, from the last to the first, and from any other card to
/// the first.
pub proof fn law_the_attention_walk_goes_round(canvas: Canvas, i: int)
    requires
        canvas.doc.sound(),
        canvas.doc.items.len() <= usize::MAX,
        0 <= i < canvas.needs_you().len(),
    ensures
        canvas.active == Some(canvas.needs_you()[i].0) ==> canvas.next_waiting() == Some(
            canvas.needs_you()[(i + 1) % (canvas.needs_you().len() as int)].1,
        ),
        (forall|j: int|
            0 <= j < canvas.needs_you().len() ==> canvas.active != Some(
                (#[trigger] canvas.needs_you()[j]).0,
            )) ==> canvas.next_waiting() == Some(canvas.needs_you()[0].1),
{
    law_everyone_waiting_is_listed_once(canvas);
    let list = canvas.needs_you();
    if let Some(id) = canvas.active {
        lemma_card_index(list, id);
        let at = card_index(list, id);
        if id == list[i].0 {
            if at < i {
                assert(list[at].0 != list[i].0);
            }
        }
    }
}

proof fn lemma_card_index(list: Seq<(u128, u128)>, id: u128)
    ensures
        0 <= card_index(list, id) <= list.len(),
        card_index(list, id) < list.len() ==> list[card_index(list, id)].0 == id,
        forall|i: int| 0 <= i < card_index(list, id) ==> (#[trigger] list[i]).0 != id,
    decreases list.len(),
{
    if list.len() > 0 && list[0].0 != id {
        let rest = list.drop_first();
        lemma_card_index(rest, id);
        assert forall|i: int| 0 <= i < card_index(list, id) implies (#[trigger] list[i]).0
            != id by {
            if i > 0 {
                assert(rest[i - 1] == list[i]);
            }
        }
    }
}

/// The device is held awake just while an agent works, whatever the host says of one and whichever
/// session ends.
pub proof fn law_a_working_agent_keeps_the_device_awake(
    canvas: Canvas,
    event: Agent<Seq<char>>,
    looking: bool,
    ended: u128,
)
    ensures
        canvas.then_agent(event, looking).shells.awake == canvas.then_agent(
            event,
            looking,
        ).shells.working(),
        canvas.then_session_closed(ended).shells.awake == canvas.then_session_closed(
            ended,
        ).shells.working(),
{
    let told = canvas.then_agent(event, looking);
    assert(told.shells.agents == canvas.shells.then_agent(event).agents);
    lemma_working(told.shells, canvas.shells.then_agent(event));
    let gone = Canvas { shells: canvas.shells.then_closed(ended), ..canvas };
    let awake = gone.then_awake();
    law_reconciling_draws_what_is_here(awake, 0);
    lemma_working(awake.shells, gone.shells);
    lemma_working(canvas.then_session_closed(ended).shells, gone.shells);
}

proof fn lemma_working(a: ShellState, b: ShellState)
    requires
        a.agents == b.agents,
    ensures
        a.working() == b.working(),
{
    if a.working() {
        let s = choose|s: u128| #[trigger]
            a.agents.contains_key(s) && works(a.agents[s]);
        assert(b.agents.contains_key(s));
    }
    if b.working() {
        let s = choose|s: u128| #[trigger]
            b.agents.contains_key(s) && works(b.agents[s]);
        assert(a.agents.contains_key(s));
    }
}

/// Whatever the document becomes, the active card is on the canvas afterwards; a terminal the host
/// made for this client is the active one, about to be in view and to take the keyboard.
pub proof fn law_the_active_card_is_on_the_canvas(
    canvas: Canvas,
    sync: CanvasSync<Seq<char>>,
    doc: Doc,
)
    requires
        created_for(sync, canvas.me) matches Some((id, _)) ==> doc.has(id),
    ensures
        ({
            let r = canvas.then_sync(sync, doc);
            &&& r.doc == doc
            &&& r.active matches Some(id) ==> r.doc.has(id)
            &&& created_for(sync, canvas.me) matches Some((id, session)) ==> {
                &&& r.active == Some(id)
                &&& r.pending.reveal == Some(id)
                &&& r.pending.focus == Some(session)
            }
        }),
{
    let pointed = match sync {
        CanvasSync::Pointed { client, name, item } => if client != canvas.me && canvas.doc.has(
            item,
        ) {
            canvas.then_toast(ToastKind::Pointed { name, item }, POINT_FOR)
        } else {
            canvas
        },
        _ => canvas,
    };
    let changed = Canvas { doc, ..pointed };
    let followed = match sync {
        CanvasSync::Presence(client) => if changed.following == Some(client) {
            changed.then_follow(client)
        } else {
            changed
        },
        _ => changed,
    };
    law_reconciling_draws_what_is_here(followed, 0);
}

/// Another client's pointing at a card that is here is offered; this client's own is not, nor one
/// at a card that is gone.
pub proof fn law_only_anothers_pointing_is_offered(
    canvas: Canvas,
    client: u128,
    name: Seq<char>,
    item: u128,
)
    ensures
        ({
            let r = canvas.then_sync(
                CanvasSync::Pointed { client, name, item },
                canvas.doc,
            );
            if client != canvas.me && canvas.doc.has(item) {
                &&& r.toast matches Some(t) && t.what == (ToastKind::Pointed { name, item })
                &&& r.toast_face() is Some
            } else {
                r.toast == canvas.toast
            }
        }),
{
    let pointed = if client != canvas.me && canvas.doc.has(item) {
        canvas.then_toast(ToastKind::Pointed { name, item }, POINT_FOR)
    } else {
        canvas
    };
    law_reconciling_draws_what_is_here(Canvas { doc: canvas.doc, ..pointed }, 0);
}

/// Following another client ends when they leave, and goes on while they look somewhere.
pub proof fn law_following_ends_when_they_leave(canvas: Canvas, client: u128, doc: Doc)
    requires
        canvas.following == Some(client),
    ensures
        canvas.then_sync(CanvasSync::Presence(client), doc).following == (if doc.looker(
            client,
        ) is Some {
            Some(client)
        } else {
            None
        }),
{
    let changed = Canvas { doc, ..canvas };
    law_reconciling_draws_what_is_here(changed.then_follow(client), 0);
}

/// A shell's answer to anything but what is sought now is dropped.
pub proof fn law_an_answer_to_another_needle_is_dropped(
    canvas: Canvas,
    session: u128,
    needle: Seq<char>,
    total: u32,
)
    requires
        canvas.find.needle != Some(needle),
    ensures
        canvas.then_answered(session, needle, total) == canvas,
{
}

/// What the step is for is drawn.
pub open spec fn lands(canvas: Canvas, step: Step<Seq<char>>) -> bool {
    match step {
        Step::Terminal(session) => canvas.shells.drawn(session),
        Step::FindIn(session, _) => canvas.shells.drawn(session),
        Step::FindInFile(item, _) => canvas.files.contains(item),
        Step::Picker => canvas.picker,
        Step::Palette => canvas.palette,
        Step::Rename => canvas.rename is Some,
        Step::Back(_) => true,
        Step::Dispatch(_) => true,
    }
}

/// What each step is for is drawn.
pub open spec fn all_land(canvas: Canvas, steps: Seq<Step<Seq<char>>>) -> bool {
    forall|i: int| 0 <= i < steps.len() ==> lands(canvas, #[trigger] steps[i])
}

proof fn lemma_land_both(canvas: Canvas, a: Seq<Step<Seq<char>>>, b: Seq<Step<Seq<char>>>)
    requires
        all_land(canvas, a),
        all_land(canvas, b),
    ensures
        all_land(canvas, a + b),
{
    let all = a + b;
    assert forall|i: int| 0 <= i < all.len() implies lands(canvas, #[trigger] all[i]) by {
        if i < a.len() {
            assert(all[i] == a[i]);
        } else {
            assert(all[i] == b[i - a.len()]);
        }
    }
}

proof fn lemma_cards_land(canvas: Canvas)
    ensures
        all_land(canvas, canvas.card_steps()),
{
    let a = maybe(canvas.focus_step());
    let b = maybe(canvas.find_step());
    let c = maybe(canvas.find_file_step());
    assert(all_land(canvas, a));
    assert(all_land(canvas, b));
    assert(all_land(canvas, c));
    lemma_land_both(canvas, a, b);
    lemma_land_both(canvas, a + b, c);
}

proof fn lemma_overlays_land(canvas: Canvas)
    ensures
        all_land(canvas, canvas.overlay_steps()),
{
    let a = Canvas::step_if(canvas.pending.picker, canvas.picker, Step::Picker);
    let b = Canvas::step_if(canvas.pending.canvas, true, Step::Back(Keeper::Canvas));
    let c = Canvas::step_if(canvas.pending.palette, canvas.palette, Step::Palette);
    let d = Canvas::step_if(canvas.pending.rename, canvas.rename is Some, Step::Rename);
    assert(all_land(canvas, a));
    assert(all_land(canvas, b));
    assert(all_land(canvas, c));
    assert(all_land(canvas, d));
    lemma_land_both(canvas, a, b);
    lemma_land_both(canvas, a + b, c);
    lemma_land_both(canvas, a + b + c, d);
}

/// The keyboard goes to nothing that is not drawn: no shell or file card without a view, no overlay
/// that is not up.
pub proof fn law_the_keyboard_lands_on_what_is_drawn(canvas: Canvas)
    ensures
        all_land(canvas, canvas.steps()),
{
    lemma_cards_land(canvas);
    lemma_overlays_land(canvas);
    assert(all_land(canvas, canvas.return_steps()));
    lemma_land_both(canvas, canvas.card_steps(), canvas.overlay_steps());
    lemma_land_both(
        canvas,
        canvas.card_steps() + canvas.overlay_steps(),
        canvas.return_steps(),
    );
}

/// What was chosen in the palette runs last, once the keyboard is back where it was when the
/// palette opened, and runs once.
pub proof fn law_a_chosen_action_runs_from_where_the_palette_opened(
    canvas: Canvas,
    element: u64,
    action: Action,
)
    requires
        !canvas.palette,
        canvas.palette_return == Some(element),
        canvas.palette_action == Some(action),
    ensures
        ({
            let steps = canvas.steps();
            let next = canvas.then_frame();
            &&& steps.len() >= 2
            &&& steps[steps.len() - 2] == Step::<Seq<char>>::Back(Keeper::Element(element))
            &&& steps[steps.len() - 1] == Step::<Seq<char>>::Dispatch(action)
            &&& next.palette_action is None && next.palette_return is None
            &&& next.steps().len() == 0
        }),
{
}

/// A card whose agent waits on the human is outlined in the warning tone, active or not, and the
/// hooks are offered no more once they were.
pub proof fn law_a_blocked_agent_outlines_its_card(
    canvas: Canvas,
    item: Item<Seq<char>>,
    live: Live<Seq<char>>,
)
    ensures
        canvas.face_of(item, live).border == Swatch::Warn <==> canvas.waits_on(item),
        canvas.hooks_offered ==> !canvas.face_of(item, live).after.contains(Pill::Hooks),
{
}

/// The field's text without the blanks around it is the card's name, a blank one clears it, and a
/// field that is not kept changes no name; the other cards keep theirs.
pub proof fn law_a_name_is_kept_trimmed(
    canvas: Canvas,
    rename: Rename,
    back: bool,
    text: Seq<char>,
    other: u128,
)
    requires
        canvas.doc.sound(),
        canvas.rename == Some(rename),
        canvas.doc.has(rename.id),
        other != rename.id,
    ensures
        ({
            let was = canvas.doc.get(rename.id)->0;
            let r = canvas.then_renamed(true, back, text);
            &&& r.doc.get(rename.id) == Some(
                Item {
                    name: if trim(text).len() > 0 {
                        Some(trim(text))
                    } else {
                        None
                    },
                    ..was
                },
            )
            &&& r.doc.get(other) == canvas.doc.get(other)
            &&& r.rename is None
            &&& trim(text).len() > 0 ==> r.card_title(r.doc.get(rename.id)->0) == trim(text)
            &&& canvas.then_renamed(false, back, text).doc == canvas.doc
        }),
{
    lemma_place_of(canvas.doc.items, rename.id);
    let was = canvas.doc.get(rename.id)->0;
    law_a_change_is_about_one_card(
        canvas.doc,
        Op::Upsert(
            Item {
                name: if trim(text).len() > 0 {
                    Some(trim(text))
                } else {
                    None
                },
                ..was
            },
        ),
        other,
    );
}

} // verus!
