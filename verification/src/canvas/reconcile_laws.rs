//! What holds of the canvas once it is reconciled with its document.
use vstd::prelude::*;

use crate::canvas::doc::{Item, ItemKind};
use crate::canvas::doc_laws::{lemma_session_card, lemma_top_is_here};
use crate::canvas::msg::{CaptureTarget, ClientMsg, Done, Effect, ScreenRequest, TermRequest};
use crate::canvas::screens::{screen_req, some_untitled, wanted, ScreenState};
use crate::canvas::shells::{shell_in, shells_without, Shell, ShellState};
use crate::canvas::view::live::{carded, kept_for, still_closed};
use crate::canvas::view::{Canvas, Pending};

verus! {

/// The effect ends a session or lets go of its rows.
pub open spec fn lets_go(e: Done, session: u128) -> bool {
    e matches Effect::Send(ClientMsg::Term { session: s, req }) && s == session && (req is Close
        || req is Detach)
}

/// `after` goes on from `before`, and nothing of what it adds lets go of the session.
pub open spec fn spares(before: Seq<Done>, after: Seq<Done>, session: u128) -> bool {
    &&& before.len() <= after.len()
    &&& after.take(before.len() as int) == before
    &&& forall|i: int| before.len() <= i < after.len() ==> !lets_go(#[trigger] after[i], session)
}

/// The shell is to be drawn: its session is alive, and either a card that is not asleep shows it or
/// a closed one can still be taken back.
pub open spec fn to_draw(canvas: Canvas, session: u128) -> bool {
    &&& canvas.shells.alive(session)
    &&& carded(canvas.doc.items, canvas.shells).contains(session) || (exists|i: int|
        0 <= i < canvas.closed.len() && (#[trigger] canvas.closed[i]).session == Some(session))
}

/// Nothing changes but what reconciling is about.
pub open spec fn only_reconciled(before: Canvas, after: Canvas) -> bool {
    after == (Canvas {
        shells: ShellState { terminals: after.shells.terminals, ..before.shells },
        screens: after.screens,
        active: after.active,
        pending: Pending { canvas: after.pending.canvas, ..before.pending },
        closed: after.closed,
        headings: after.headings,
        out: after.out,
        ..before
    })
}

pub(crate) proof fn lemma_spares_push(before: Seq<Done>, after: Seq<Done>, one: Done, session: u128)
    requires
        spares(before, after, session),
        !lets_go(one, session),
    ensures
        spares(before, after.push(one), session),
{
    let all = after.push(one);
    assert(all.take(before.len() as int) =~= before) by {
        assert(after.take(before.len() as int) == before);
        assert forall|i: int| 0 <= i < before.len() implies all[i] == before[i] by {
            assert(after.take(before.len() as int)[i] == before[i]);
        }
    }
    assert forall|i: int| before.len() <= i < all.len() implies !lets_go(
        #[trigger] all[i],
        session,
    ) by {
        if i < after.len() {
            assert(all[i] == after[i]);
        }
    }
}

pub(crate) proof fn lemma_spares_trans(a: Seq<Done>, b: Seq<Done>, c: Seq<Done>, session: u128)
    requires
        spares(a, b, session),
        spares(b, c, session),
    ensures
        spares(a, c, session),
{
    assert forall|i: int| 0 <= i < b.len() implies c[i] == b[i] by {
        assert(c.take(b.len() as int)[i] == b[i]);
    }
    assert(c.take(a.len() as int) =~= a) by {
        assert forall|i: int| 0 <= i < a.len() implies c[i] == a[i] by {
            assert(b.take(a.len() as int)[i] == a[i]);
        }
    }
    assert forall|i: int| a.len() <= i < c.len() implies !lets_go(#[trigger] c[i], session) by {
        if i < b.len() {
            assert(c[i] == b[i]);
        }
    }
}

pub(crate) proof fn lemma_spares_self(a: Seq<Done>, session: u128)
    ensures
        spares(a, a, session),
{
    assert(a.take(a.len() as int) =~= a);
}

pub(crate) proof fn lemma_drawn(terminals: Seq<Shell<Seq<char>>>, session: u128)
    ensures
        shell_in(terminals, session) is Some <==> exists|i: int|
            0 <= i < terminals.len() && (#[trigger] terminals[i]).session == session,
    decreases terminals.len(),
{
    if terminals.len() > 0 && terminals[0].session != session {
        let rest = terminals.drop_first();
        lemma_drawn(rest, session);
        if shell_in(rest, session) is Some {
            let i = choose|i: int| 0 <= i < rest.len() && (#[trigger] rest[i]).session == session;
            assert(terminals[i + 1].session == session);
        }
        if exists|i: int| 0 <= i < terminals.len() && (#[trigger] terminals[i]).session == session {
            let i = choose|i: int|
                0 <= i < terminals.len() && (#[trigger] terminals[i]).session == session;
            assert(rest[i - 1].session == session);
        }
    }
}

pub(crate) proof fn lemma_drawn_push(terminals: Seq<Shell<Seq<char>>>, one: Shell<Seq<char>>, session: u128)
    ensures
        shell_in(terminals.push(one), session) is Some <==> (shell_in(terminals, session) is Some
            || one.session == session),
{
    let all = terminals.push(one);
    lemma_drawn(terminals, session);
    lemma_drawn(all, session);
    if shell_in(terminals, session) is Some {
        let i = choose|i: int|
            0 <= i < terminals.len() && (#[trigger] terminals[i]).session == session;
        assert(all[i].session == session);
    }
    if one.session == session {
        assert(all[terminals.len() as int].session == session);
    }
    if shell_in(all, session) is Some {
        let i = choose|i: int| 0 <= i < all.len() && (#[trigger] all[i]).session == session;
        if i < terminals.len() {
            assert(terminals[i].session == session);
        }
    }
}

pub(crate) proof fn lemma_undrawn(terminals: Seq<Shell<Seq<char>>>, gone: u128, session: u128)
    ensures
        shell_in(shells_without(terminals, gone), session) is Some <==> (shell_in(
            terminals,
            session,
        ) is Some && session != gone),
    decreases terminals.len(),
{
    if terminals.len() > 0 {
        let init = terminals.drop_last();
        lemma_undrawn(init, gone, session);
        assert(terminals == init.push(terminals.last()));
        lemma_drawn_push(init, terminals.last(), session);
        if terminals.last().session != gone {
            lemma_drawn_push(shells_without(init, gone), terminals.last(), session);
        }
    }
}

#[verifier::rlimit(30)]
proof fn lemma_attach(canvas: Canvas, session: u128, one: u128)
    ensures
        ({
            let r = canvas.then_attach(session);
            &&& r == (Canvas {
                shells: ShellState { terminals: r.shells.terminals, ..canvas.shells },
                active: r.active,
                out: r.out,
                ..canvas
            })
            &&& r.shells.drawn(one) <==> (canvas.shells.drawn(one) || (one == session
                && canvas.shells.alive(one)))
            &&& spares(canvas.out, r.out, one)
            &&& canvas.active is Some ==> r.active == canvas.active
            &&& canvas.active is None && r.active is Some ==> r.doc.has(r.active->0)
        }),
{
    let r = canvas.then_attach(session);
    lemma_spares_self(canvas.out, one);
    if canvas.shells.drawn(session) || !canvas.shells.alive(session) {
    } else {
        let s = canvas.shells.sessions[session];
        let a: Done = Effect::Send(
            ClientMsg::Term {
                session,
                req: TermRequest::Attach { cols: s.cols, rows: s.rows },
            },
        );
        let b: Done = Effect::Send(ClientMsg::Term { session, req: TermRequest::Colors });
        lemma_spares_push(canvas.out, canvas.out, a, one);
        lemma_spares_push(canvas.out, canvas.out.push(a), b, one);
        if canvas.shells.agents.contains_key(session) {
            lemma_spares_push(
                canvas.out,
                canvas.out.push(a).push(b),
                Effect::AgentStatus { session, status: canvas.shells.agents[session].status },
                one,
            );
        }
        lemma_drawn_push(canvas.shells.terminals, Shell { session, title: None }, one);
        lemma_session_card(canvas.doc, session);
    }
}

pub(crate) proof fn lemma_attach_all(canvas: Canvas, want: Seq<u128>, one: u128)
    ensures
        ({
            let r = canvas.then_attach_all(want);
            &&& r == (Canvas {
                shells: ShellState { terminals: r.shells.terminals, ..canvas.shells },
                active: r.active,
                out: r.out,
                ..canvas
            })
            &&& r.shells.drawn(one) <==> (canvas.shells.drawn(one) || (want.contains(one)
                && canvas.shells.alive(one)))
            &&& spares(canvas.out, r.out, one)
            &&& canvas.active is Some ==> r.active == canvas.active
            &&& canvas.active is None && r.active is Some ==> r.doc.has(r.active->0)
        }),
    decreases want.len(),
{
    if want.len() == 0 {
        lemma_spares_self(canvas.out, one);
    } else {
        let init = want.drop_last();
        let mid = canvas.then_attach_all(init);
        lemma_attach_all(canvas, init, one);
        lemma_attach(mid, want.last(), one);
        let r = canvas.then_attach_all(want);
        lemma_spares_trans(canvas.out, mid.out, r.out, one);
        lemma_contains_last(want, one);
    }
}

pub(crate) proof fn lemma_contains_last(s: Seq<u128>, x: u128)
    requires
        s.len() > 0,
    ensures
        s.contains(x) <==> (s.drop_last().contains(x) || s.last() == x),
{
    let init = s.drop_last();
    if init.contains(x) {
        let i = choose|i: int| 0 <= i < init.len() && init[i] == x;
        assert(s[i] == x);
    }
    if s.last() == x {
        assert(s[s.len() - 1] == x);
    }
    if s.contains(x) {
        let i = choose|i: int| 0 <= i < s.len() && s[i] == x;
        if i < init.len() {
            assert(init[i] == x);
        }
    }
}

pub(crate) proof fn lemma_detach_all(
    canvas: Canvas,
    drawn: Seq<Shell<Seq<char>>>,
    want: Seq<u128>,
    one: u128,
)
    ensures
        ({
            let r = canvas.then_detach_all(drawn, want);
            &&& r == (Canvas {
                shells: ShellState { terminals: r.shells.terminals, ..canvas.shells },
                out: r.out,
                ..canvas
            })
            &&& r.shells.drawn(one) <==> (canvas.shells.drawn(one) && (want.contains(one) || shell_in(
                drawn,
                one,
            ) is None))
            &&& want.contains(one) ==> spares(canvas.out, r.out, one)
        }),
    decreases drawn.len(),
{
    if drawn.len() == 0 {
        lemma_spares_self(canvas.out, one);
    } else {
        let init = drawn.drop_last();
        let mid = canvas.then_detach_all(init, want);
        let session = drawn.last().session;
        lemma_detach_all(canvas, init, want, one);
        assert(drawn == init.push(drawn.last()));
        lemma_drawn_push(init, drawn.last(), one);
        if !want.contains(session) {
            lemma_undrawn(mid.shells.terminals, session, one);
            if want.contains(one) && mid.shells.alive(session) {
                lemma_spares_push(
                    canvas.out,
                    mid.out,
                    Effect::Send(ClientMsg::Term { session, req: TermRequest::Detach }),
                    one,
                );
            }
        }
    }
}

proof fn lemma_streams_spare(
    screens: ScreenState,
    items: Seq<Item<Seq<char>>>,
    out: Seq<Done>,
    one: u128,
)
    ensures
        spares(out, screens.then_reconcile(items, out).1, one),
{
    let ask = some_untitled(screens.titles, items)
        && !screens.titles_requested;
    let first = ScreenState { titles_requested: screens.titles_requested || ask, ..screens };
    lemma_spares_self(out, one);
    if ask {
        lemma_spares_push(
            out,
            out,
            Effect::Send(ClientMsg::Screen(ScreenRequest::List)),
            one,
        );
    }
    let said = if ask {
        out.push(screen_req(ScreenRequest::List))
    } else {
        out
    };
    let want = wanted(items);
    lemma_want_spares(first, want, out, said, one);
    let (opened, told) = first.then_want_all(want, said);
    lemma_drop_spares(opened, opened.open.len() as int, want, out, told, one);
}

proof fn lemma_want_spares(
    screens: ScreenState,
    want: Seq<(u128, CaptureTarget)>,
    start: Seq<Done>,
    out: Seq<Done>,
    one: u128,
)
    requires
        spares(start, out, one),
    ensures
        spares(start, screens.then_want_all(want, out).1, one),
    decreases want.len(),
{
    if want.len() > 0 {
        lemma_want_spares(screens, want.drop_last(), start, out, one);
        let (_, said) = screens.then_want_all(want.drop_last(), out);
        lemma_spares_push(
            start,
            said,
            Effect::Send(ClientMsg::Screen(ScreenRequest::Open { target: want.last().1 })),
            one,
        );
    }
}

proof fn lemma_drop_spares(
    screens: ScreenState,
    n: int,
    want: Seq<(u128, CaptureTarget)>,
    start: Seq<Done>,
    out: Seq<Done>,
    one: u128,
)
    requires
        spares(start, out, one),
    ensures
        spares(start, screens.then_drop(n, want, out).2, one),
    decreases n,
{
    if n > 0 {
        lemma_drop_spares(screens, n - 1, want, start, out, one);
        let (_, _, said) = screens.then_drop(n - 1, want, out);
        lemma_spares_push(
            start,
            said,
            Effect::Send(
                ClientMsg::Screen(ScreenRequest::Close { stream: screens.open[n - 1].stream }),
            ),
            one,
        );
    }
}

proof fn lemma_kept_for(canvas: Canvas, session: u128)
    ensures
        kept_for(still_closed(canvas.closed, canvas.shells), canvas.shells).contains(session) <==> (
        canvas.shells.alive(session) && exists|i: int|
            0 <= i < canvas.closed.len() && (#[trigger] canvas.closed[i]).session == Some(
                session,
            )),
    decreases canvas.closed.len(),
{
    let closed = canvas.closed;
    let shells = canvas.shells;
    if closed.len() > 0 {
        let init = closed.drop_last();
        let last = closed.last();
        let less = Canvas { closed: init, ..canvas };
        lemma_kept_for(less, session);
        let kept = still_closed(init, shells);
        if exists|i: int|
            0 <= i < closed.len() && (#[trigger] closed[i]).session == Some(session) {
            let i = choose|i: int|
                0 <= i < closed.len() && (#[trigger] closed[i]).session == Some(session);
            if i < init.len() {
                assert(init[i].session == Some(session));
            }
        }
        if exists|i: int| 0 <= i < init.len() && (#[trigger] init[i]).session == Some(session) {
            let i = choose|i: int|
                0 <= i < init.len() && (#[trigger] init[i]).session == Some(session);
            assert(closed[i].session == Some(session));
        }
        if last.session == Some(session) {
            assert(closed[closed.len() - 1].session == Some(session));
        }
        if !(last.session matches Some(s) && !shells.alive(s)) {
            let all = kept.push(last);
            assert(all.drop_last() == kept);
            let ids = kept_for(all, shells);
            if last.session is Some {
                lemma_contains_last(ids, session);
                assert(ids.drop_last() == kept_for(kept, shells));
            }
        }
    }
}

pub(crate) proof fn lemma_carded(items: Seq<Item<Seq<char>>>, shells: ShellState, session: u128)
    ensures
        carded(items, shells).contains(session) <==> (shells.alive(session) && exists|i: int|
            0 <= i < items.len() && !(#[trigger] items[i]).sleeping && items[i].kind == (ItemKind::<
                Seq<char>,
            >::Terminal { session })),
    decreases items.len(),
{
    if items.len() > 0 {
        let init = items.drop_last();
        let last = items.last();
        lemma_carded(init, shells, session);
        let all = carded(items, shells);
        if carded(init, shells) != all {
            lemma_contains_last(all, session);
            assert(all.drop_last() == carded(init, shells));
        }
        if exists|i: int|
            0 <= i < items.len() && !(#[trigger] items[i]).sleeping && items[i].kind == (ItemKind::<
                Seq<char>,
            >::Terminal { session }) {
            let i = choose|i: int|
                0 <= i < items.len() && !(#[trigger] items[i]).sleeping && items[i].kind == (
                ItemKind::<Seq<char>>::Terminal { session });
            if i < init.len() {
                assert(!init[i].sleeping);
            } else {
                assert(items[i] == last);
            }
        }
        if exists|i: int|
            0 <= i < init.len() && !(#[trigger] init[i]).sleeping && init[i].kind == (ItemKind::<
                Seq<char>,
            >::Terminal { session }) {
            let i = choose|i: int|
                0 <= i < init.len() && !(#[trigger] init[i]).sleeping && init[i].kind == (
                ItemKind::<Seq<char>>::Terminal { session });
            assert(!items[i].sleeping);
        }
        if !last.sleeping && last.kind == (ItemKind::<Seq<char>>::Terminal { session }) {
            assert(!items[items.len() - 1].sleeping);
        }
    }
}

/// The sessions that reconciling draws.
pub open spec fn drawn_after(canvas: Canvas) -> Seq<u128> {
    carded(canvas.doc.items, canvas.shells) + kept_for(
        still_closed(canvas.closed, canvas.shells),
        canvas.shells,
    )
}

pub(crate) proof fn lemma_drawn_after(canvas: Canvas, session: u128)
    ensures
        drawn_after(canvas).contains(session) <==> to_draw(canvas, session),
{
    let cards = carded(canvas.doc.items, canvas.shells);
    let kept = kept_for(still_closed(canvas.closed, canvas.shells), canvas.shells);
    let want = drawn_after(canvas);
    lemma_kept_for(canvas, session);
    lemma_carded(canvas.doc.items, canvas.shells, session);
    if cards.contains(session) {
        let i = choose|i: int| 0 <= i < cards.len() && cards[i] == session;
        assert(want[i] == session);
    }
    if kept.contains(session) {
        let i = choose|i: int| 0 <= i < kept.len() && kept[i] == session;
        assert(want[cards.len() + i] == session);
    }
    if want.contains(session) {
        let i = choose|i: int| 0 <= i < want.len() && want[i] == session;
        if i < cards.len() {
            assert(cards[i] == session);
        } else {
            assert(kept[i - cards.len()] == session);
        }
    }
}

/// The canvas once its shells are reconciled, before its streams are.
pub open spec fn shells_settled(canvas: Canvas) -> Canvas {
    let first = Canvas { closed: still_closed(canvas.closed, canvas.shells), ..canvas };
    let attached = first.then_attach_all(drawn_after(canvas));
    attached.then_detach_all(attached.shells.terminals, drawn_after(canvas))
}

pub(crate) proof fn lemma_shells_settled(canvas: Canvas, session: u128)
    ensures
        ({
            let r = shells_settled(canvas);
            &&& r == (Canvas {
                shells: ShellState { terminals: r.shells.terminals, ..canvas.shells },
                closed: still_closed(canvas.closed, canvas.shells),
                active: r.active,
                out: r.out,
                ..canvas
            })
            &&& r.shells.drawn(session) <==> to_draw(canvas, session)
            &&& to_draw(canvas, session) ==> spares(canvas.out, r.out, session)
            &&& canvas.active is Some ==> r.active == canvas.active
            &&& canvas.active is None && r.active is Some ==> r.doc.has(r.active->0)
        }),
{
    let first = Canvas { closed: still_closed(canvas.closed, canvas.shells), ..canvas };
    let want = drawn_after(canvas);
    let attached = first.then_attach_all(want);
    lemma_drawn_after(canvas, session);
    lemma_attach_all(first, want, session);
    lemma_detach_all(attached, attached.shells.terminals, want, session);
    if want.contains(session) {
        lemma_spares_trans(canvas.out, attached.out, shells_settled(canvas).out, session);
    }
}

/// Reconciling leaves the document alone, draws just the shells that a card shows or that can be
/// taken back, lets go of none of them, and leaves the active card on the canvas.
pub proof fn law_reconciling_draws_what_is_here(canvas: Canvas, session: u128)
    ensures
        ({
            let r = canvas.then_reconcile();
            &&& only_reconciled(canvas, r)
            &&& r.closed == still_closed(canvas.closed, canvas.shells)
            &&& r.shells.drawn(session) <==> to_draw(canvas, session)
            &&& to_draw(canvas, session) ==> spares(canvas.out, r.out, session)
            &&& r.active matches Some(id) ==> r.doc.has(id)
            &&& (canvas.active is Some && canvas.doc.has(canvas.active->0)) ==> (r.active
                == canvas.active && r.pending == canvas.pending)
        }),
{
    reveal(Canvas::then_reconcile);
    let settled = shells_settled(canvas);
    lemma_shells_settled(canvas, session);
    let (screens, out) = settled.screens.then_reconcile(settled.doc.items, settled.out);
    lemma_streams_spare(settled.screens, settled.doc.items, settled.out, session);
    lemma_top_is_here(canvas.doc);
    let r = canvas.then_reconcile();
    if to_draw(canvas, session) {
        lemma_spares_trans(canvas.out, settled.out, out, session);
        lemma_spares_push(
            canvas.out,
            out,
            Effect::RunTargets(r.shells.run_target() is Some),
            session,
        );
    }
}

} // verus!
