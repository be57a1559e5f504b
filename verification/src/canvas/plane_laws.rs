//! What the plane promises: how cards are ordered, dragged and sized, and where the keyboard goes.
use vstd::prelude::*;

use crate::canvas::actions::Action;
use crate::canvas::doc::{
    float_key, float_same, heights, highest, top_of, is_nan, law_reading_goes_by_rows, reading_ids,
    reading_key, reading_keys, stacked_ids, Item, Op, Rect,
};
use crate::canvas::choice_laws::reads_before;
use crate::canvas::doc_laws::law_a_change_is_about_one_card;
use crate::canvas::drag::{asked_by, Drag, Moved, Resized};
use crate::canvas::frame::{view_same, Looks, Step};
use crate::canvas::msg::{Aim, ClientMsg, Done, Effect, ScreenRequest};
use crate::canvas::screens::{stream_on, Stream};
use crate::canvas::terms::{lemma_card, lemma_shell_shown, runs, shell_shown};
use crate::canvas::view::{Canvas, Keeper};
use crate::order::{before, is_order, lemma_an_order};

verus! {

/// Single-precision numbers, by their bits, in the order of their values: those with the sign bit
/// set are negative and come first, the greater their magnitude the earlier; of the others the
/// smaller comes first.
pub proof fn law_numbers_go_by_their_values(a: u32, b: u32)
    ensures
        a < 0x8000_0000 && b < 0x8000_0000 ==> (float_key(a) < float_key(b) <==> a < b),
        a >= 0x8000_0000 && b >= 0x8000_0000 ==> (float_key(a) < float_key(b) <==> a > b),
        a >= 0x8000_0000 && b < 0x8000_0000 ==> float_key(a) < float_key(b),
        float_key(a) == float_key(b) ==> a == b,
{
}

/// Two numbers are the same where their bits are, but zero has two signs and what is no number is
/// the same as nothing.
pub proof fn law_zero_has_two_signs(a: u32, b: u32)
    ensures
        is_nan(a) <==> (0x7f80_0000 < a < 0x8000_0000 || a > 0xff80_0000),
        float_same(a, b) <==> {
            &&& !is_nan(a) && !is_nan(b)
            &&& a == b || ((a == 0 || a == 0x8000_0000) && (b == 0 || b == 0x8000_0000))
        },
{
}

/// The places `at` name each of the cards once.
pub open spec fn each_once(items: Seq<Item<Seq<char>>>, at: Seq<int>) -> bool {
    &&& at.len() == items.len()
    &&& forall|i: int| 0 <= i < at.len() ==> 0 <= #[trigger] at[i] < items.len()
    &&& forall|k: int| 0 <= k < items.len() ==> #[trigger] at.contains(k)
}

/// Cards are drawn bottom to top: each once, a lower number first, and those with the same number as
/// they stand in the document.
pub proof fn law_cards_are_drawn_bottom_to_top(items: Seq<Item<Seq<char>>>) -> (at: Seq<int>)
    requires
        items.len() <= usize::MAX,
    ensures
        each_once(items, at),
        stacked_ids(items) == at.map_values(|k: int| items[k].id),
        forall|i: int, j: int|
            0 <= i < j < at.len() ==> items[#[trigger] at[i]].z < items[#[trigger] at[j]].z || (
            items[at[i]].z == items[at[j]].z && at[i] < at[j]),
{
    let keys = heights(items);
    let order = lemma_an_order(keys);
    let at = lemma_as_places(items, keys, order);
    assert(stacked_ids(items) =~= at.map_values(|k: int| items[k].id));
    assert forall|i: int, j: int| 0 <= i < j < at.len() implies items[#[trigger] at[i]].z
        < items[#[trigger] at[j]].z || (items[at[i]].z == items[at[j]].z && at[i] < at[j]) by {
        assert(before(keys, order[i], order[j]));
        assert(keys[at[i]] == items[at[i]].z as i128);
        assert(keys[at[j]] == items[at[j]].z as i128);
    }
    at
}

/// Cards are read row by row: each once, the higher up first, of those as high the one further left,
/// and those at the same place as they stand in the document.
pub proof fn law_cards_are_read_row_by_row(items: Seq<Item<Seq<char>>>) -> (at: Seq<int>)
    requires
        items.len() <= usize::MAX,
    ensures
        each_once(items, at),
        reading_ids(items) == at.map_values(|k: int| items[k].id),
        forall|i: int, j: int|
            0 <= i < j < at.len() ==> reads_before(
                items[#[trigger] at[i]].rect,
                items[#[trigger] at[j]].rect,
            ) || (!reads_before(items[at[j]].rect, items[at[i]].rect) && at[i] < at[j]),
{
    let keys = reading_keys(items);
    let order = lemma_an_order(keys);
    let at = lemma_as_places(items, keys, order);
    assert(reading_ids(items) =~= at.map_values(|k: int| items[k].id));
    assert forall|i: int, j: int| 0 <= i < j < at.len() implies reads_before(
        items[#[trigger] at[i]].rect,
        items[#[trigger] at[j]].rect,
    ) || (!reads_before(items[at[j]].rect, items[at[i]].rect) && at[i] < at[j]) by {
        assert(before(keys, order[i], order[j]));
        let (a, b) = (items[at[i]].rect, items[at[j]].rect);
        assert(keys[at[i]] == reading_key(a));
        assert(keys[at[j]] == reading_key(b));
        law_reading_goes_by_rows(a, b);
        law_reading_goes_by_rows(b, a);
    }
    at
}

proof fn lemma_as_places(
    items: Seq<Item<Seq<char>>>,
    keys: Seq<i128>,
    order: Seq<usize>,
) -> (at: Seq<int>)
    requires
        items.len() <= usize::MAX,
        keys.len() == items.len(),
        is_order(keys, order),
    ensures
        each_once(items, at),
        at == order.map_values(|i: usize| i as int),
{
    let at = order.map_values(|i: usize| i as int);
    assert forall|k: int| 0 <= k < items.len() implies #[trigger] at.contains(k) by {
        assert(order.contains(k as usize));
        let i = choose|i: int| 0 <= i < order.len() && order[i] == k as usize;
        assert(at[i] == k);
    }
    at
}

/// A card that is dragged lies where the pointer has it, on this canvas alone until it is let go;
/// every other card stays where it was. Dragging the plane or the overview follows no one any more.
pub proof fn law_a_dragged_card_goes_with_the_pointer(
    canvas: Canvas,
    item: Item<Seq<char>>,
    start: Rect,
    rect: Rect,
    other: u128,
    mapped: bool,
)
    requires
        canvas.doc.sound(),
        canvas.doc.items.contains(item),
        other != item.id,
    ensures
        ({
            let moved = canvas.then_dragged(
                Some(Drag::Move { id: item.id, start }),
                true,
                mapped,
                rect,
            );
            let sized = canvas.then_dragged(
                Some(Drag::Resize { id: item.id, start }),
                true,
                mapped,
                rect,
            );
            &&& moved.doc.get(item.id) == Some(Item { rect, ..item })
            &&& sized.doc.get(item.id) == Some(Item { rect, ..item })
            &&& moved.doc.get(other) == canvas.doc.get(other) && sized.doc.get(other)
                == canvas.doc.get(other)
            &&& moved.out == canvas.out && sized.out == canvas.out
        }),
        canvas.then_dragged(Some(Drag::Pan), true, mapped, rect).following is None,
        canvas.then_dragged(Some(Drag::Minimap), true, true, rect).following is None,
        canvas.then_dragged(None, true, mapped, rect) == canvas,
        canvas.then_dragged(Some(Drag::Move { id: item.id, start }), false, mapped, rect) == canvas,
{
    lemma_card(canvas.doc, item);
    law_a_change_is_about_one_card(canvas.doc, Op::Place { id: item.id, rect }, other);
}

/// A card that is placed lies there, for the host as well; a card that is gone goes nowhere.
pub proof fn law_a_placed_card_lies_there(
    canvas: Canvas,
    item: Item<Seq<char>>,
    gone: u128,
    rect: Rect,
)
    requires
        canvas.doc.sound(),
        canvas.doc.items.contains(item),
        !canvas.doc.has(gone),
    ensures
        canvas.then_placed(item.id, rect).doc.get(item.id) == Some(Item { rect, ..item }),
        canvas.then_placed(item.id, rect).out == canvas.out.push(
            Effect::Send(ClientMsg::Canvas(Op::Place { id: item.id, rect })),
        ),
        canvas.then_placed(gone, rect) == canvas,
{
    lemma_card(canvas.doc, item);
    law_a_change_is_about_one_card(
        canvas.doc,
        Op::Place { id: item.id, rect },
        if item.id == 0 {
            1
        } else {
            0
        },
    );
}

/// The host is asked for another size of a window exactly where it is another.
pub proof fn law_a_window_is_asked_for_another_size_once(
    canvas: Canvas,
    stream: u64,
    size: (u32, u32),
    native: (u32, u32),
)
    ensures
        size == native ==> canvas.then_resize(stream, size, native).out == canvas.out,
        size != native ==> canvas.then_resize(stream, size, native).out == canvas.out.push(
            Effect::Send(
                ClientMsg::Screen(
                    ScreenRequest::Resize { stream, width: size.0, height: size.1 },
                ),
            ),
        ),
{
}

/// The keyboard sits on something that is drawn: a shell shown as a card gives it to the canvas, and
/// the active shell gets it back from the canvas once it is a live grid again. Where it sits on
/// anything else it stays.
pub proof fn law_the_keyboard_stays_on_what_is_live(
    canvas: Canvas,
    item: Item<Seq<char>>,
    session: u128,
    terminal_focused: bool,
    canvas_focused: bool,
)
    requires
        canvas.doc.sound(),
        canvas.doc.items.contains(item),
        canvas.active == Some(item.id),
    ensures
        canvas.kept_drawn(true, true, canvas_focused) == Some(Step::<Seq<char>>::Back(Keeper::Canvas)),
        canvas.kept_drawn(true, false, canvas_focused) is None,
        canvas.kept_drawn(false, terminal_focused, false) is None,
        runs(item, session) ==> canvas.kept_drawn(false, terminal_focused, true) == (if shell_shown(
            canvas,
            session,
        ) {
            Some(Step::<Seq<char>>::Terminal(session))
        } else {
            None
        }),
        !(item.kind is Terminal) ==> canvas.kept_drawn(false, terminal_focused, true) is None,
{
    lemma_card(canvas.doc, item);
    lemma_shell_shown(canvas, session);
}

/// A find with the canvas focused goes to the active shell, or the active file card, where it is
/// shown; from any other card it goes nowhere.
pub proof fn law_a_find_goes_to_the_active_card(
    canvas: Canvas,
    item: Item<Seq<char>>,
    session: u128,
)
    requires
        canvas.doc.sound(),
        canvas.doc.items.contains(item),
        canvas.active == Some(item.id),
        item.kind is File || !canvas.files.contains(item.id),
    ensures
        runs(item, session) ==> (if shell_shown(canvas, session) {
            canvas.find_goes() matches Some(Step::FindIn(s, needle)) && s == session && needle.len()
                == 0
        } else {
            canvas.find_goes() is None
        }),
        item.kind is File ==> (if canvas.files.contains(item.id) {
            canvas.find_goes() matches Some(Step::FindInFile(id, needle)) && id == item.id
                && needle.len() == 0
        } else {
            canvas.find_goes() is None
        }),
        item.kind is Note || item.kind is Window || item.kind is Display ==> canvas.find_goes()
            is None,
{
    lemma_card(canvas.doc, item);
    lemma_shell_shown(canvas, session);
}

/// Once the viewport is measured, each card that waited for it and is still there is sized, in turn,
/// and none waits any more; before that they all go on waiting.
pub proof fn law_what_waited_for_the_viewport_is_sized(canvas: Canvas)
    ensures
        canvas.then_sized(true).out == canvas.out + canvas.fit_items.filter(
            |id: u128| canvas.doc.has(id),
        ).map_values(|id: u128| fitted(id)),
        canvas.then_sized(true).fit_items.len() == 0,
        canvas.then_sized(false).fit_items == canvas.fit_items,
        canvas.then_sized(false).out == canvas.out,
{
    let known = Canvas { measured: true, fit_items: Seq::empty(), ..canvas };
    let unknown = Canvas { measured: false, fit_items: Seq::empty(), ..canvas };
    lemma_fits(known, canvas.fit_items);
    lemma_waits(unknown, canvas.fit_items);
    assert(canvas.fit_items.filter(|id: u128| known.doc.has(id)) =~= canvas.fit_items.filter(
        |id: u128| canvas.doc.has(id),
    ));
    assert(Seq::<u128>::empty() + canvas.fit_items =~= canvas.fit_items);
}

/// The card is to be sized to the viewport.
pub open spec fn fitted(id: u128) -> Done {
    Effect::Fit(id)
}

proof fn lemma_fits(canvas: Canvas, ids: Seq<u128>)
    requires
        canvas.measured,
    ensures
        canvas.then_fit_all(ids).out == canvas.out + ids.filter(
            |id: u128| canvas.doc.has(id),
        ).map_values(|id: u128| fitted(id)),
        canvas.then_fit_all(ids).fit_items == canvas.fit_items,
        canvas.then_fit_all(ids).doc == canvas.doc,
        canvas.then_fit_all(ids).measured,
    decreases ids.len(),
{
    reveal(Seq::filter);
    let pick = |id: u128| canvas.doc.has(id);
    let put = |id: u128| fitted(id);
    if ids.len() > 0 {
        lemma_fits(canvas, ids.drop_last());
        let init = ids.drop_last().filter(pick);
        assert(init.push(ids.last()).map_values(put) =~= init.map_values(put).push(
            fitted(ids.last()),
        ));
        assert(canvas.out + init.map_values(put).push(fitted(ids.last())) =~= (canvas.out
            + init.map_values(put)).push(fitted(ids.last())));
    } else {
        assert(canvas.out + ids.filter(pick).map_values(put) =~= canvas.out);
    }
}

proof fn lemma_waits(canvas: Canvas, ids: Seq<u128>)
    requires
        !canvas.measured,
    ensures
        canvas.then_fit_all(ids).out == canvas.out,
        canvas.then_fit_all(ids).fit_items == canvas.fit_items + ids,
        !canvas.then_fit_all(ids).measured,
    decreases ids.len(),
{
    if ids.len() > 0 {
        lemma_waits(canvas, ids.drop_last());
        assert((canvas.fit_items + ids.drop_last()).push(ids.last()) =~= canvas.fit_items + ids);
    } else {
        assert(canvas.fit_items + ids =~= canvas.fit_items);
    }
}

/// A first frame with cards flies to where all of them are in view; without any it stays.
pub proof fn law_the_first_frame_shows_every_card(canvas: Canvas, known: bool)
    ensures
        ({
            let next = canvas.then_measured(known);
            let sized = canvas.then_sized(known);
            &&& !next.pending.fit && next.pending.reveal is None
            &&& canvas.pending.fit && canvas.doc.items.len() > 0 ==> next.out == sized.out.push(
                Effect::Fly(Aim::All),
            ) && next.following is None
            &&& !canvas.pending.fit || canvas.doc.items.len() == 0 ==> next.out == sized.out
        }),
{
}

/// The card drawn over all the others: none stands higher, and of those as high it is the last.
pub proof fn law_the_top_card_is_over_the_others(items: Seq<Item<Seq<char>>>) -> (at: int)
    requires
        items.len() > 0,
    ensures
        0 <= at < items.len(),
        top_of(items) == Some(items[at]),
        forall|i: int| 0 <= i < items.len() ==> (#[trigger] items[i]).z <= items[at].z,
        forall|i: int| at < i < items.len() ==> (#[trigger] items[i]).z < items[at].z,
    decreases items.len(),
{
    let last = items.len() - 1;
    let init = items.drop_last();
    lemma_highest_over(items);
    if items.last().z >= highest(items) {
        last
    } else {
        assert(init.len() > 0) by {
            if init.len() == 0 {
                assert(highest(init) == 0);
            }
        }
        let at = law_the_top_card_is_over_the_others(init);
        lemma_highest_over(init);
        assert forall|i: int| 0 <= i < items.len() implies (#[trigger] items[i]).z
            <= items[at].z by {
            if i < last {
                assert(init[i].z <= init[at].z);
            } else {
                lemma_highest_is_one(init, init[at].z);
            }
        }
        assert forall|i: int| at < i < items.len() implies (#[trigger] items[i]).z
            < items[at].z by {
            if i < last {
                assert(init[i].z < init[at].z);
            } else {
                lemma_highest_is_one(init, init[at].z);
            }
        }
        at
    }
}

proof fn lemma_highest_over(items: Seq<Item<Seq<char>>>)
    ensures
        forall|i: int| 0 <= i < items.len() ==> (#[trigger] items[i]).z <= highest(items),
    decreases items.len(),
{
    if items.len() > 0 {
        let init = items.drop_last();
        lemma_highest_over(init);
        assert forall|i: int| 0 <= i < items.len() implies (#[trigger] items[i]).z <= highest(
            items,
        ) by {
            if i < init.len() {
                assert(init[i].z <= highest(init));
            }
        }
    }
}

proof fn lemma_highest_is_one(items: Seq<Item<Seq<char>>>, z: u32)
    requires
        forall|i: int| 0 <= i < items.len() ==> (#[trigger] items[i]).z <= z,
    ensures
        highest(items) <= z,
    decreases items.len(),
{
    if items.len() > 0 {
        let init = items.drop_last();
        assert(items[items.len() - 1].z <= z);
        assert forall|i: int| 0 <= i < init.len() implies (#[trigger] init[i]).z <= z by {
            assert(items[i].z <= z);
        }
        lemma_highest_is_one(init, z);
    }
}

/// When the active card is gone the topmost takes its place and the canvas the keyboard; an active
/// card that is there stays active.
pub proof fn law_the_topmost_card_takes_over(canvas: Canvas, gone: u128)
    requires
        !canvas.doc.has(gone),
    ensures
        ({
            let left = Canvas { active: Some(gone), ..canvas };
            let next = left.then_keep_active();
            &&& next.pending.canvas
            &&& canvas.doc.items.len() == 0 ==> next.active is None
            &&& canvas.doc.items.len() > 0 ==> next.active == Some(
                top_of(canvas.doc.items)->0.id,
            )
            &&& next.doc == canvas.doc && next.out == canvas.out
        }),
        canvas.active matches Some(id) && canvas.doc.has(id) ==> canvas.then_keep_active()
            == canvas,
        canvas.active is None ==> canvas.then_keep_active() == canvas,
{
    if canvas.doc.items.len() > 0 {
        law_the_top_card_is_over_the_others(canvas.doc.items);
    }
}

/// A window's own stream can be resized, a display's cannot.
pub proof fn law_only_a_window_is_resized(canvas: Canvas, i: int, none: u128)
    requires
        0 <= i < canvas.screens.open.len(),
        forall|j: int|
            0 <= j < i ==> (#[trigger] canvas.screens.open[j]).item != canvas.screens.open[i].item,
        forall|j: int|
            0 <= j < canvas.screens.open.len() ==> (#[trigger] canvas.screens.open[j]).item
                != none,
    ensures
        ({
            let one = canvas.screens.open[i];
            &&& one.target is Window ==> canvas.window_stream(one.item) == Some(one.stream)
            &&& one.target is Display ==> canvas.window_stream(one.item) is None
            &&& canvas.window_stream(none) is None
        }),
{
    lemma_stream_at(canvas.screens.open, i);
    lemma_stream_none(canvas.screens.open, none);
}

proof fn lemma_stream_at(open: Seq<Stream>, i: int)
    requires
        0 <= i < open.len(),
        forall|j: int| 0 <= j < i ==> (#[trigger] open[j]).item != open[i].item,
    ensures
        stream_on(open, open[i].item) == Some(open[i]),
    decreases open.len(),
{
    if i > 0 {
        assert(open[0].item != open[i].item);
        let rest = open.drop_first();
        assert forall|j: int| 0 <= j < i - 1 implies (#[trigger] rest[j]).item
            != rest[i - 1].item by {
            assert(open[j + 1].item != open[i].item);
        }
        lemma_stream_at(rest, i - 1);
    }
}

proof fn lemma_stream_none(open: Seq<Stream>, none: u128)
    requires
        forall|j: int| 0 <= j < open.len() ==> (#[trigger] open[j]).item != none,
    ensures
        stream_on(open, none) is None,
    decreases open.len(),
{
    if open.len() > 0 {
        assert(open[0].item != none);
        let rest = open.drop_first();
        assert forall|j: int| 0 <= j < rest.len() implies (#[trigger] rest[j]).item != none by {
            assert(open[j + 1].item != none);
        }
        lemma_stream_none(rest, none);
    }
}

/// A drag that is let go leaves its card where it lies, and the host hears of it; only a window whose
/// size was dragged is asked for another, from where it was to where it is. Dragging the plane or
/// the overview moves the camera and no card.
pub proof fn law_a_drop_places_the_card(
    canvas: Canvas,
    item: Item<Seq<char>>,
    start: Rect,
    rect: Rect,
    mapped: bool,
)
    requires
        canvas.doc.sound(),
        canvas.doc.items.contains(item),
    ensures
        ({
            let moved = Some(Drag::Move { id: item.id, start });
            let sized = Some(Drag::Resize { id: item.id, start });
            &&& canvas.then_dropped(moved, rect) == canvas.then_placed(item.id, rect)
            &&& canvas.then_dropped(sized, rect) == canvas.then_placed(item.id, rect)
            &&& canvas.resized_by(moved, rect) is None
            &&& canvas.resized_by(sized, rect) == (match canvas.window_stream(item.id) {
                Some(stream) => Some(Resized { stream, start, rect }),
                None => None,
            })
            &&& asked_by(moved, true, mapped) == Moved::Placed && asked_by(sized, true, mapped)
                == Moved::Placed
            &&& asked_by(moved, false, mapped) == Moved::Nothing
        }),
        canvas.then_dropped(Some(Drag::Pan), rect) == canvas,
        canvas.then_dropped(Some(Drag::Minimap), rect) == canvas,
        canvas.then_dropped(None, rect) == canvas,
        canvas.resized_by(Some(Drag::Pan), rect) is None,
        asked_by(Some(Drag::Pan), true, mapped) == Moved::Pan,
        asked_by(Some(Drag::Minimap), true, true) == Moved::Scrub,
        asked_by(Some(Drag::Minimap), true, false) == Moved::Nothing,
        asked_by(None, true, mapped) == Moved::Nothing,
{
    lemma_card(canvas.doc, item);
}

/// What a frame settles: the caret goes to the note that waits for it once it has an editor, and the
/// card that is to be seen comes into view while it is there. The active card, one that is dragged
/// and those on screen are drawn. The arrows move the reading line of the active file card, unless
/// the palette or the picker has the keys.
pub proof fn law_a_frame_settles_what_waits(canvas: Canvas, id: u128, dragged: Option<u128>)
    ensures
        canvas.pending.note == Some(id) ==> canvas.note_to_focus() == (if canvas.notes.contains(
            id,
        ) {
            Some(id)
        } else {
            None
        }),
        canvas.pending.note is None ==> canvas.note_to_focus() is None,
        canvas.pending.reveal == Some(id) ==> canvas.card_to_reveal() == (if canvas.doc.has(id) {
            Some(id)
        } else {
            None
        }),
        canvas.pending.reveal is None ==> canvas.card_to_reveal() is None,
        canvas.draws_card(id, dragged, true),
        canvas.draws_card(id, Some(id), false),
        canvas.active == Some(id) ==> canvas.draws_card(id, dragged, false),
        canvas.active != Some(id) && dragged != Some(id) ==> !canvas.draws_card(
            id,
            dragged,
            false,
        ),
        canvas.active == Some(id) && canvas.files.contains(id) && !canvas.palette && !canvas.picker
            ==> canvas.line_card() == Some(id),
        canvas.active == Some(id) && !canvas.files.contains(id) ==> canvas.line_card() is None,
        canvas.palette || canvas.picker || canvas.active is None ==> canvas.line_card() is None,
{
}

/// The host is told where this client looks.
pub open spec fn looked(view: Option<Rect>) -> ClientMsg<Seq<char>, Seq<Seq<char>>> {
    ClientMsg::Look { view }
}

/// A viewport that moved is told to the host once the telling is due, as it is then; only one
/// telling is scheduled at a time, and one that has not moved is not told.
pub proof fn law_a_moved_viewport_is_told(looks: Looks, view: Option<Rect>)
    ensures
        looks.schedules(view) ==> !looks.scheduled,
        !looks.scheduled && !view_same(view, looks.told) ==> looks.schedules(view),
        view_same(view, looks.told) ==> !looks.schedules(view) && looks.tells(view) is None,
        !view_same(view, looks.told) ==> looks.tells(view) is Some && looks.tells(view)->0 == looked(
            view,
        ) && looks.then_due(view).told == view,
        !looks.then_due(view).scheduled,
        view is None && looks.told is Some ==> !view_same(view, looks.told),
        view matches Some(a) ==> (looks.told matches Some(b) ==> (view_same(view, looks.told)
            <==> float_same(a.x, b.x) && float_same(a.y, b.y) && float_same(a.w, b.w)
            && float_same(a.h, b.h))),
{
}

/// Once the name field or the palette is gone the keyboard goes back to who had it, and what the
/// palette chose runs from there, last of all.
pub proof fn law_the_keyboard_goes_back_to_who_had_it(
    canvas: Canvas,
    keeper: Keeper,
    element: u64,
    action: Action,
)
    ensures
        canvas.rename is None && canvas.rename_return == Some(keeper) && canvas.palette_return
            is None ==> canvas.steps().len() > 0 && canvas.steps().last() == Step::<Seq<char>>::Back(
            keeper,
        ),
        !canvas.palette && canvas.palette_return == Some(element) && canvas.palette_action is None
            ==> canvas.steps().len() > 0 && canvas.steps().last() == Step::<Seq<char>>::Back(
            Keeper::Element(element),
        ),
        !canvas.palette && canvas.palette_return == Some(element) && canvas.palette_action == Some(
            action,
        ) ==> {
            let n = canvas.steps().len();
            &&& n >= 2
            &&& canvas.steps()[n - 1] == Step::<Seq<char>>::Dispatch(action)
            &&& canvas.steps()[n - 2] == Step::<Seq<char>>::Back(Keeper::Element(element))
        },
        canvas.then_frame().palette_action is Some ==> canvas.palette || canvas.palette_return
            is None,
{
    let last = canvas.return_steps();
    let before = canvas.card_steps() + canvas.overlay_steps();
    assert(canvas.steps() == before + last);
    lemma_ends(before, last);
}

proof fn lemma_ends(a: Seq<Step<Seq<char>>>, b: Seq<Step<Seq<char>>>)
    ensures
        (a + b).len() == a.len() + b.len(),
        b.len() >= 1 ==> (a + b).last() == b.last(),
        b.len() >= 2 ==> (a + b)[a.len() + b.len() - 2] == b[b.len() - 2],
{
}

} // verus!
