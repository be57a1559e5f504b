//! What the host's screens and shells promise to lead to on the canvas.
use vstd::prelude::*;

use crate::canvas::deed_laws::{law_a_picked_screen_becomes_a_card, lemma_upserted, none_over};
use crate::canvas::doc::{Doc, Item, ItemKind, Rect};
use crate::canvas::host::{showing, ShellEvent, TermEvent};
use crate::canvas::msg::{
    CanvasEvent, CaptureTarget, ClientMsg, Done, Effect, ScreenRequest, TermRequest,
};
use crate::canvas::screens::{
    asked_but, asked_for, cards_of, is_wanted, named, screen_req, some_untitled, ScreenState,
    streams_but, streams_without, wanted, window_in, Stream, Window, WindowInfo,
};
use crate::canvas::streams::{display_text, ScreenEvent};
use crate::canvas::terms::{first_for, lemma_first_is};
use crate::canvas::view::cards::new_card;
use crate::canvas::view::Canvas;
use crate::text::held;

verus! {

/// The card is to show a stream: a window or a display that is not asleep.
pub open spec fn streams(item: Item<Seq<char>>) -> bool {
    !item.sleeping && (item.kind is Window || item.kind is Display)
}

/// What the card shows.
pub open spec fn target_of(item: Item<Seq<char>>) -> CaptureTarget {
    match item.kind {
        ItemKind::Display { display } => CaptureTarget::Display(display),
        ItemKind::Window { window } => CaptureTarget::Window(window),
        _ => CaptureTarget::Display(0),
    }
}

/// Exactly the windows and displays that are awake are to show a stream, each of what it stands for.
pub proof fn law_every_awake_screen_wants_its_stream(items: Seq<Item<Seq<char>>>)
    ensures
        wanted(items) == items.filter(|i: Item<Seq<char>>| streams(i)).map_values(
            |i: Item<Seq<char>>| (i.id, target_of(i)),
        ),
    decreases items.len(),
{
    reveal(Seq::filter);
    let pick = |i: Item<Seq<char>>| streams(i);
    let put = |i: Item<Seq<char>>| (i.id, target_of(i));
    if items.len() > 0 {
        law_every_awake_screen_wants_its_stream(items.drop_last());
        let init = items.drop_last().filter(pick);
        let last = items.last();
        assert(init.push(last).map_values(put) =~= init.map_values(put).push(
            (last.id, target_of(last)),
        ));
    } else {
        assert(items.filter(pick).map_values(put) =~= Seq::<(u128, CaptureTarget)>::empty());
    }
}

/// A stream that closed is gone and every other stays; a card's stream is taken off it alone; and
/// what arrives is no longer asked for, while all else is.
pub proof fn law_one_stream_goes_alone(
    open: Seq<Stream>,
    pending: Seq<(CaptureTarget, u128)>,
    stream: u64,
    item: u128,
    target: CaptureTarget,
)
    ensures
        streams_but(open, stream) == open.filter(|s: Stream| s.stream != stream),
        streams_without(open, item) == open.filter(|s: Stream| s.item != item),
        cards_of(open, stream) == open.filter(|s: Stream| s.stream == stream).map_values(
            |s: Stream| s.item,
        ),
        asked_but(pending, target) == pending.filter(|p: (CaptureTarget, u128)| p.0 != target),
{
    lemma_but(open, stream);
    lemma_off(open, item);
    lemma_cards_of(open, stream);
    lemma_asked_but(pending, target);
}

proof fn lemma_but(open: Seq<Stream>, stream: u64)
    ensures
        streams_but(open, stream) == open.filter(|s: Stream| s.stream != stream),
    decreases open.len(),
{
    reveal(Seq::filter);
    if open.len() > 0 {
        lemma_but(open.drop_last(), stream);
    }
}

proof fn lemma_off(open: Seq<Stream>, item: u128)
    ensures
        streams_without(open, item) == open.filter(|s: Stream| s.item != item),
    decreases open.len(),
{
    reveal(Seq::filter);
    if open.len() > 0 {
        lemma_off(open.drop_last(), item);
    }
}

proof fn lemma_cards_of(open: Seq<Stream>, stream: u64)
    ensures
        cards_of(open, stream) == open.filter(|s: Stream| s.stream == stream).map_values(
            |s: Stream| s.item,
        ),
    decreases open.len(),
{
    reveal(Seq::filter);
    let pick = |s: Stream| s.stream == stream;
    let put = |s: Stream| s.item;
    if open.len() > 0 {
        lemma_cards_of(open.drop_last(), stream);
        let init = open.drop_last().filter(pick);
        assert(init.push(open.last()).map_values(put) =~= init.map_values(put).push(
            open.last().item,
        ));
    } else {
        assert(open.filter(pick).map_values(put) =~= Seq::<u128>::empty());
    }
}

proof fn lemma_asked_but(pending: Seq<(CaptureTarget, u128)>, target: CaptureTarget)
    ensures
        asked_but(pending, target) == pending.filter(|p: (CaptureTarget, u128)| p.0 != target),
    decreases pending.len(),
{
    reveal(Seq::filter);
    if pending.len() > 0 {
        lemma_asked_but(pending.drop_last(), target);
    }
}

/// What is asked for first is what an arrival serves; what nobody asked for serves no card.
pub proof fn law_an_arrival_serves_who_asked_first(
    pending: Seq<(CaptureTarget, u128)>,
    i: int,
    target: CaptureTarget,
)
    requires
        0 <= i < pending.len(),
        forall|j: int| 0 <= j < i ==> (#[trigger] pending[j]).0 != pending[i].0,
        forall|j: int| 0 <= j < pending.len() ==> (#[trigger] pending[j]).0 != target,
    ensures
        asked_for(pending, pending[i].0) == Some(pending[i].1),
        asked_for(pending, target) is None,
{
    lemma_asked(pending, i);
    lemma_unasked(pending, target);
}

proof fn lemma_asked(pending: Seq<(CaptureTarget, u128)>, i: int)
    requires
        0 <= i < pending.len(),
        forall|j: int| 0 <= j < i ==> (#[trigger] pending[j]).0 != pending[i].0,
    ensures
        asked_for(pending, pending[i].0) == Some(pending[i].1),
    decreases pending.len(),
{
    if i > 0 {
        assert(pending[0].0 != pending[i].0);
        let rest = pending.drop_first();
        assert forall|j: int| 0 <= j < i - 1 implies (#[trigger] rest[j]).0 != rest[i - 1].0 by {
            assert(pending[j + 1].0 != pending[i].0);
        }
        lemma_asked(rest, i - 1);
    }
}

proof fn lemma_unasked(pending: Seq<(CaptureTarget, u128)>, target: CaptureTarget)
    requires
        forall|j: int| 0 <= j < pending.len() ==> (#[trigger] pending[j]).0 != target,
    ensures
        asked_for(pending, target) is None,
    decreases pending.len(),
{
    if pending.len() > 0 {
        assert(pending[0].0 != target);
        let rest = pending.drop_first();
        assert forall|j: int| 0 <= j < rest.len() implies (#[trigger] rest[j]).0 != target by {
            assert(pending[j + 1].0 != target);
        }
        lemma_unasked(rest, target);
    }
}

/// The listing names the window: under its title, or under its app's name where it has none.
pub open spec fn lists(windows: Seq<Window<Seq<char>>>, id: u64, title: Seq<char>) -> bool {
    exists|k: int| #[trigger] lists_at(windows, k, id, title)
}

/// The window at the place `k` is the first with this identity, and is called so.
pub open spec fn lists_at(
    windows: Seq<Window<Seq<char>>>,
    k: int,
    id: u64,
    title: Seq<char>,
) -> bool {
    &&& 0 <= k < windows.len() && windows[k].id == id
    &&& forall|j: int| 0 <= j < k ==> (#[trigger] windows[j]).id != id
    &&& title == (if windows[k].title.len() > 0 {
        windows[k].title
    } else {
        windows[k].app
    })
}

proof fn lemma_window_in(windows: Seq<Window<Seq<char>>>, id: u64) -> (k: int)
    ensures
        match window_in(windows, id) {
            Some(w) => 0 <= k < windows.len() && windows[k] == w && w.id == id && forall|j: int|
                0 <= j < k ==> (#[trigger] windows[j]).id != id,
            None => forall|j: int| 0 <= j < windows.len() ==> (#[trigger] windows[j]).id != id,
        },
    decreases windows.len(),
{
    if windows.len() == 0 {
        0
    } else if windows[0].id == id {
        0
    } else {
        let rest = windows.drop_first();
        let k = lemma_window_in(rest, id) + 1;
        if window_in(rest, id) is Some {
            assert(windows[k] == rest[k - 1]);
            assert forall|j: int| 0 <= j < k implies (#[trigger] windows[j]).id != id by {
                if j > 0 {
                    assert(rest[j - 1].id != id);
                }
            }
        } else {
            assert forall|j: int| 0 <= j < windows.len() implies (#[trigger] windows[j]).id
                != id by {
                if j > 0 {
                    assert(rest[j - 1].id != id);
                }
            }
        }
        k
    }
}

/// A listing names each window card that has no title yet and that it lists; a title that is there
/// stays, and no other card gets one.
pub proof fn law_a_listing_names_the_windows(
    titles: Map<u128, Seq<char>>,
    items: Seq<Item<Seq<char>>>,
    windows: Seq<Window<Seq<char>>>,
    i: int,
)
    requires
        0 <= i < items.len(),
        forall|a: int, b: int|
            0 <= a < b < items.len() ==> (#[trigger] items[a]).id != (#[trigger] items[b]).id,
    ensures
        ({
            let next = named(titles, items, windows);
            let item = items[i];
            &&& titles.contains_key(item.id) ==> next.contains_key(item.id) && next[item.id]
                == titles[item.id]
            &&& !titles.contains_key(item.id) ==> {
                &&& !(item.kind is Window) ==> !next.contains_key(item.id)
                &&& item.kind matches ItemKind::Window { window } ==> {
                    &&& next.contains_key(item.id) ==> lists(windows, window, next[item.id])
                    &&& !next.contains_key(item.id) ==> forall|j: int|
                        0 <= j < windows.len() ==> (#[trigger] windows[j]).id != window
                }
            }
        }),
    decreases items.len(),
{
    let init = items.drop_last();
    let last = items.last();
    assert forall|a: int, b: int| 0 <= a < b < init.len() implies (#[trigger] init[a]).id != (
    #[trigger] init[b]).id by {
        assert(items[a].id != items[b].id);
    }
    let rest = named(titles, init, windows);
    if i < init.len() {
        law_a_listing_names_the_windows(titles, init, windows, i);
        assert(items[i].id != items[items.len() - 1].id);
    } else {
        lemma_named_others(titles, init, windows, last.id);
        if let ItemKind::Window { window } = last.kind {
            let k = lemma_window_in(windows, window);
            if let Some(info) = window_in(windows, window) {
                let next = named(titles, items, windows);
                if !titles.contains_key(last.id) {
                    assert(lists_at(windows, k, window, next[last.id]));
                }
            }
        }
    }
}

proof fn lemma_named_others(
    titles: Map<u128, Seq<char>>,
    items: Seq<Item<Seq<char>>>,
    windows: Seq<Window<Seq<char>>>,
    id: u128,
)
    requires
        forall|i: int| 0 <= i < items.len() ==> (#[trigger] items[i]).id != id,
    ensures
        named(titles, items, windows).contains_key(id) == titles.contains_key(id),
        titles.contains_key(id) ==> named(titles, items, windows)[id] == titles[id],
    decreases items.len(),
{
    if items.len() > 0 {
        assert(items[items.len() - 1].id != id);
        let init = items.drop_last();
        assert forall|i: int| 0 <= i < init.len() implies (#[trigger] init[i]).id != id by {
            assert(items[i].id != id);
        }
        lemma_named_others(titles, init, windows, id);
    }
}

/// A listing that was asked for to add the display adds the first one, once; one that was asked for
/// to pick from shows the picker, with the keyboard.
pub proof fn law_a_listing_does_what_it_was_asked_for(
    canvas: Canvas,
    windows: Seq<Window<Seq<char>>>,
    displays: Seq<u64>,
    id: u128,
    slot: Rect,
)
    requires
        canvas.doc.sound(),
        !canvas.doc.has(id),
    ensures
        ({
            let next = canvas.then_listing(windows, displays, id, slot);
            &&& !next.display_wanted
            &&& canvas.display_wanted && displays.len() > 0 ==> {
                &&& next.doc.get(id) matches Some(item)
                &&& item.kind == (ItemKind::<Seq<char>>::Display { display: displays[0] })
                &&& item.rect == slot && none_over(canvas.doc, item.z)
                &&& next.active == Some(id)
            }
            &&& !canvas.display_wanted || displays.len() == 0 ==> next.doc == canvas.doc
                && next.active == canvas.active && next.out == canvas.out
            &&& canvas.picker_wanted ==> next.picker && next.pending.picker && !next.picker_wanted
            &&& !canvas.picker_wanted ==> next.picker == canvas.picker
        }),
{
    let named = Canvas {
        screens: canvas.screens.then_titles(canvas.doc.items, windows),
        display_wanted: false,
        ..canvas
    };
    if canvas.display_wanted && displays.len() > 0 {
        law_a_picked_screen_becomes_a_card(
            named,
            CaptureTarget::Display(displays[0]),
            display_text(displays[0]),
            id,
            slot,
        );
    }
}

/// What the host's clipboard holds is copied here, unless it is here already; and every streamed
/// card hears of it, as the cards of a stream hear what is told of that stream. A window without a
/// size is told to no one.
pub proof fn law_the_cards_of_a_stream_hear_of_it(
    canvas: Canvas,
    event: ScreenEvent<String, Vec<WindowInfo>>,
    same: bool,
    id: u128,
    slot: Rect,
)
    ensures
        event matches ScreenEvent::Clipboard { text } ==> {
            &&& same ==> canvas.then_screens(event, same, id, slot) == canvas
            &&& !same ==> canvas.then_screens(event, same, id, slot).out == canvas.out.push(
                Effect::Copy(text@),
            )
            &&& canvas.hears(event) == canvas.screens.open.map_values(|s: Stream| s.item)
        },
        event matches ScreenEvent::Rate { stream } ==> canvas.hears(event)
            == canvas.screens.open.filter(|s: Stream| s.stream == stream).map_values(
            |s: Stream| s.item,
        ),
        event matches ScreenEvent::Source { stream } ==> canvas.hears(event)
            == canvas.screens.open.filter(|s: Stream| s.stream == stream).map_values(
            |s: Stream| s.item,
        ),
        event matches ScreenEvent::Cursor { stream } ==> canvas.hears(event)
            == canvas.screens.open.filter(|s: Stream| s.stream == stream).map_values(
            |s: Stream| s.item,
        ),
        event matches ScreenEvent::Geometry { stream, width, height } ==> {
            &&& width > 0 && height > 0 ==> canvas.hears(event) == canvas.screens.open.filter(
                |s: Stream| s.stream == stream,
            ).map_values(|s: Stream| s.item)
            &&& width == 0 || height == 0 ==> canvas.hears(event).len() == 0
        },
        event is Listing || event is Opened || event is Closed || event is ListingChanged
            ==> canvas.hears(event).len() == 0,
{
    match event {
        ScreenEvent::Rate { stream } => lemma_cards_of(canvas.screens.open, stream),
        ScreenEvent::Source { stream } => lemma_cards_of(canvas.screens.open, stream),
        ScreenEvent::Cursor { stream } => lemma_cards_of(canvas.screens.open, stream),
        ScreenEvent::Geometry { stream, .. } => lemma_cards_of(canvas.screens.open, stream),
        _ => {},
    }
}

/// What the worker says of a file reaches exactly the views of the cards that show it.
pub proof fn law_a_file_is_told_to_the_cards_that_show_it(
    files: Seq<u128>,
    doc: Doc,
    path: Seq<char>,
)
    ensures
        showing(files, doc, path) == files.filter(
            |id: u128|
                doc.get(id) is Some && doc.get(id)->0.kind == (ItemKind::File { path }),
        ),
    decreases files.len(),
{
    reveal(Seq::filter);
    if files.len() > 0 {
        law_a_file_is_told_to_the_cards_that_show_it(files.drop_last(), doc, path);
    }
}

/// What a shell reports leads where it says: a bell and a notice to the chrome, its end to the
/// session's, its title to its card's, a block of it into a note at the place it was given.
pub proof fn law_a_shells_report_is_acted_on(
    canvas: Canvas,
    session: u128,
    event: ShellEvent<String>,
    looking: bool,
    id: u128,
    slot: Rect,
)
    requires
        canvas.doc.sound(),
        !canvas.doc.has(id),
    ensures
        ({
            let next = canvas.then_shell_event(session, event, looking, id, slot);
            &&& event is Bell ==> next.out == canvas.out.push(
                Effect::Emit(CanvasEvent::Bell(session)),
            )
            &&& event matches ShellEvent::Notice(text) ==> next.out == canvas.out.push(
                Effect::Emit(CanvasEvent::Notice(text@)),
            )
            &&& event is Exited ==> next.out == canvas.out.push(
                Effect::Send(ClientMsg::Term { session, req: TermRequest::Close }),
            )
            &&& event matches ShellEvent::Title(title) ==> {
                &&& next.out == canvas.out && next.doc == canvas.doc
                &&& next.shells.terminals.len() == canvas.shells.terminals.len()
                &&& forall|i: int|
                    0 <= i < canvas.shells.terminals.len() ==> {
                        let (was, now) = (canvas.shells.terminals[i], next.shells.terminals[i]);
                        &&& (#[trigger] next.shells.terminals[i]).session == was.session
                        &&& was.session == session ==> now.title == held(title)
                        &&& was.session != session ==> now.title == was.title
                    }
            }
            &&& event matches ShellEvent::NoteBlock(text) ==> {
                &&& next.doc.get(id) matches Some(item)
                &&& item.kind == (ItemKind::Note { text: text@ }) && item.rect == slot
                &&& next.active == Some(id) && next.pending.reveal == Some(id)
            }
        }),
{
    if let ShellEvent::NoteBlock(text) = event {
        lemma_upserted(
            canvas,
            new_card(
                id,
                ItemKind::Note { text: text@ },
                slot,
                canvas.doc,
            ),
        );
    }
}

/// A stream the host closed is shown on no card any more, and every other stays as it was; what a
/// shell found of what is sought counts as its answer, and nothing else it streams does.
pub proof fn law_a_closed_stream_is_shown_no_more(
    canvas: Canvas,
    stream: u64,
    session: u128,
    event: TermEvent<String>,
    same: bool,
    id: u128,
    slot: Rect,
)
    ensures
        ({
            let next = canvas.then_screens(ScreenEvent::Closed { stream }, same, id, slot);
            &&& next.screens.open == canvas.screens.open.filter(|s: Stream| s.stream != stream)
            &&& next.screens.pending == canvas.screens.pending && next.screens.titles
                == canvas.screens.titles
            &&& next.out == canvas.out && next.doc == canvas.doc
        }),
        event matches TermEvent::Matches { needle, total } ==> canvas.then_term_event(
            session,
            event,
        ) == canvas.then_answered(session, needle@, total),
        event is Other ==> canvas.then_term_event(session, event) == canvas,
{
    lemma_but(canvas.screens.open, stream);
}

/// A stream that opened is shown on the card that asked for it first, in place of any it showed, and
/// is no longer asked for; one that no card asked for is closed again.
pub proof fn law_an_opened_stream_goes_to_its_card(
    canvas: Canvas,
    stream: u64,
    i: int,
    unasked: CaptureTarget,
    same: bool,
    id: u128,
    slot: Rect,
)
    requires
        0 <= i < canvas.screens.pending.len(),
        forall|j: int|
            0 <= j < i ==> (#[trigger] canvas.screens.pending[j]).0
                != canvas.screens.pending[i].0,
        forall|j: int|
            0 <= j < canvas.screens.pending.len() ==> (#[trigger] canvas.screens.pending[j]).0
                != unasked,
    ensures
        ({
            let (target, item) = canvas.screens.pending[i];
            let next = canvas.then_screens(ScreenEvent::Opened { stream, target }, same, id, slot);
            &&& next.screens.open == canvas.screens.open.filter(
                |s: Stream| s.item != item,
            ).push(Stream { item, stream, target })
            &&& next.screens.pending == canvas.screens.pending.filter(
                |p: (CaptureTarget, u128)| p.0 != target,
            )
            &&& next.out == canvas.out.push(Effect::ShowStream { item, stream })
        }),
        ({
            let next = canvas.then_screens(
                ScreenEvent::Opened { stream, target: unasked },
                same,
                id,
                slot,
            );
            next.screens == canvas.screens && next.out == canvas.out.push(
                Effect::Send(ClientMsg::Screen(ScreenRequest::Close { stream })),
            )
        }),
{
    let (target, item) = canvas.screens.pending[i];
    law_an_arrival_serves_who_asked_first(canvas.screens.pending, i, unasked);
    lemma_off(canvas.screens.open, item);
    lemma_asked_but(canvas.screens.pending, target);
}

/// A command that ended in a shell whose card is not the active one is remembered where it ran long
/// enough; one that the human watched is not. A shell that moved is known to be where it went.
pub proof fn law_a_finished_command_is_remembered(
    canvas: Canvas,
    session: u128,
    at: int,
    event: ShellEvent<String>,
    looking: bool,
    id: u128,
    slot: Rect,
)
    requires
        first_for(canvas, session, at),
        !canvas.shells.finished.contains_key(session),
    ensures
        event matches ShellEvent::CommandFinished(done) ==> {
            let next = canvas.then_shell_event(session, event, looking, id, slot);
            &&& next.shells.finished.contains_key(session) <==> (canvas.active != Some(
                canvas.doc.items[at].id,
            ) && done.deep_view().elapsed >= canvas.shells.slow_command)
            &&& next.out == canvas.out && next.doc == canvas.doc
        },
        event matches ShellEvent::Cwd { path, repo } ==> {
            let next = canvas.then_shell_event(session, event, looking, id, slot);
            canvas.shells.sessions.contains_key(session) ==> next.shells.sessions[session].cwd
                == Some(path@) && next.shells.sessions[session].repo == held(repo)
        },
{
    lemma_first_is(canvas, session, at);
}

/// The card is among those with a stream that want none any more.
pub open spec fn let_go(
    open: Seq<Stream>,
    want: Seq<(u128, CaptureTarget)>,
    card: u128,
) -> bool {
    !is_wanted(want, card) && exists|i: int|
        0 <= i < open.len() && (#[trigger] open[i]).item == card
}

proof fn lemma_titles_dropped(
    screens: ScreenState,
    n: int,
    want: Seq<(u128, CaptureTarget)>,
    out: Seq<Done>,
    card: u128,
)
    requires
        0 <= n <= screens.open.len(),
    ensures
        ({
            let titles = screens.then_drop(n, want, out).1;
            let kept = screens.then_drop(n, want, out).0;
            &&& titles.contains_key(card) <==> screens.titles.contains_key(card) && !let_go(
                screens.open.take(n),
                want,
                card,
            )
            &&& titles.contains_key(card) ==> titles[card] == screens.titles[card]
            &&& kept == screens.open.take(n).filter(|s: Stream| is_wanted(want, s.item))
        }),
    decreases n,
{
    reveal(Seq::filter);
    let some = screens.open.take(n);
    if n > 0 {
        lemma_titles_dropped(screens, n - 1, want, out, card);
        let less = screens.open.take(n - 1);
        assert(some.drop_last() =~= less);
        assert(let_go(some, want, card) <==> let_go(less, want, card) || (!is_wanted(want, card)
            && screens.open[n - 1].item == card)) by {
            if let_go(less, want, card) {
                let i = choose|i: int| 0 <= i < less.len() && (#[trigger] less[i]).item == card;
                assert(some[i].item == card);
            }
            if let_go(some, want, card) {
                let i = choose|i: int| 0 <= i < some.len() && (#[trigger] some[i]).item == card;
                if i < less.len() {
                    assert(less[i].item == card);
                }
            }
            if !is_wanted(want, card) && screens.open[n - 1].item == card {
                assert(some[n - 1].item == card);
            }
        }
    }
}

proof fn lemma_asking_keeps(
    screens: ScreenState,
    want: Seq<(u128, CaptureTarget)>,
    out: Seq<Done>,
)
    ensures
        screens.then_want_all(want, out).0.open == screens.open,
        screens.then_want_all(want, out).0.titles == screens.titles,
    decreases want.len(),
{
    if want.len() > 0 {
        lemma_asking_keeps(screens, want.drop_last(), out);
    }
}

/// When the canvas is settled a stream stays exactly where its card still wants one; the title of a
/// card that lost its stream is forgotten with it, and every other title stays.
pub proof fn law_a_title_goes_with_its_stream(
    screens: ScreenState,
    items: Seq<Item<Seq<char>>>,
    out: Seq<Done>,
    card: u128,
)
    ensures
        ({
            let next = screens.then_reconcile(items, out).0;
            &&& next.open == screens.open.filter(|s: Stream| is_wanted(wanted(items), s.item))
            &&& next.titles.contains_key(card) <==> screens.titles.contains_key(card) && !let_go(
                screens.open,
                wanted(items),
                card,
            )
            &&& next.titles.contains_key(card) ==> next.titles[card] == screens.titles[card]
        }),
{
    let ask = some_untitled(screens.titles, items) && !screens.titles_requested;
    let first = ScreenState { titles_requested: screens.titles_requested || ask, ..screens };
    let said = if ask {
        out.push(screen_req(ScreenRequest::List))
    } else {
        out
    };
    let want = wanted(items);
    lemma_asking_keeps(first, want, said);
    let (opened, told) = first.then_want_all(want, said);
    lemma_titles_dropped(opened, opened.open.len() as int, want, told, card);
    assert(opened.open.take(opened.open.len() as int) =~= screens.open);
}

} // verus!
