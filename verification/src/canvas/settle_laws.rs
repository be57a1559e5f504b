//! What reconciling tells the host: of each shell once, and nothing the second time.
use vstd::prelude::*;

use crate::canvas::doc::Item;
use crate::canvas::msg::{CaptureTarget, ClientMsg, Done, Effect, ScreenRequest, TermRequest};
use crate::canvas::reconcile_laws::{
    drawn_after, law_reconciling_draws_what_is_here, lemma_attach_all, lemma_contains_last,
    lemma_detach_all, lemma_drawn, lemma_drawn_after, lemma_drawn_push, lemma_shells_settled,
    lemma_undrawn, shells_settled, to_draw,
};
use crate::canvas::screen_laws::{
    abandoned, all_wanted, asked_once, law_every_screen_card_is_served, served,
};
use crate::canvas::screens::{
    asked_on, is_wanted, screen_req, some_untitled, still_asked, stream_on, untitled, wanted,
    ScreenState, Stream,
};
use crate::canvas::shells::{shell_in, shells_without, Shell};
use crate::canvas::view::live::{carded, kept_for, still_closed};
use crate::canvas::view::{Canvas, ClosedCard};

verus! {

/// The effect asks the host for a session's rows, or lets go of them.
pub open spec fn tells(e: Done, session: u128, attach: bool) -> bool {
    e matches Effect::Send(ClientMsg::Term { session: s, req }) && s == session && if attach {
        req is Attach
    } else {
        req is Detach
    }
}

/// How often what was said behind the first `from` effects asks for a session's rows, or lets go
/// of them.
pub open spec fn times_told(out: Seq<Done>, from: nat, session: u128, attach: bool) -> nat
    decreases out.len(),
{
    if out.len() <= from {
        0
    } else {
        times_told(out.drop_last(), from, session, attach) + if tells(out.last(), session, attach) {
            1nat
        } else {
            0nat
        }
    }
}

/// Each shell is drawn once.
pub open spec fn drawn_once(terminals: Seq<Shell<Seq<char>>>) -> bool {
    forall|i: int, j: int|
        0 <= i < j < terminals.len() ==> (#[trigger] terminals[i]).session != (
        #[trigger] terminals[j]).session
}

proof fn lemma_told_push(out: Seq<Done>, one: Done, from: nat, session: u128, attach: bool)
    requires
        from <= out.len(),
    ensures
        times_told(out.push(one), from, session, attach) == times_told(out, from, session, attach)
            + if tells(one, session, attach) {
            1nat
        } else {
            0nat
        },
{
    assert(out.push(one).drop_last() == out);
}

proof fn lemma_attach_told(canvas: Canvas, session: u128, from: nat, one: u128, attach: bool)
    requires
        from <= canvas.out.len(),
    ensures
        ({
            let r = canvas.then_attach(session);
            &&& canvas.out.len() <= r.out.len()
            &&& times_told(r.out, from, one, attach) == times_told(canvas.out, from, one, attach)
                + if attach && one == session && !canvas.shells.drawn(one) && canvas.shells.alive(
                one,
            ) {
                1nat
            } else {
                0nat
            }
        }),
{
    if !canvas.shells.drawn(session) && canvas.shells.alive(session) {
        let s = canvas.shells.sessions[session];
        let a: Done = Effect::Send(
            ClientMsg::Term {
                session,
                req: TermRequest::Attach { cols: s.cols, rows: s.rows },
            },
        );
        let b: Done = Effect::Send(ClientMsg::Term { session, req: TermRequest::Colors });
        lemma_told_push(canvas.out, a, from, one, attach);
        lemma_told_push(canvas.out.push(a), b, from, one, attach);
        if canvas.shells.agents.contains_key(session) {
            lemma_told_push(
                canvas.out.push(a).push(b),
                Effect::AgentStatus { session, status: canvas.shells.agents[session].status },
                from,
                one,
                attach,
            );
        }
    }
}

proof fn lemma_attach_all_told(canvas: Canvas, want: Seq<u128>, from: nat, one: u128, attach: bool)
    requires
        from <= canvas.out.len(),
    ensures
        ({
            let r = canvas.then_attach_all(want);
            &&& canvas.out.len() <= r.out.len()
            &&& times_told(r.out, from, one, attach) == times_told(canvas.out, from, one, attach)
                + if attach && want.contains(one) && !canvas.shells.drawn(one)
                && canvas.shells.alive(one) {
                1nat
            } else {
                0nat
            }
        }),
    decreases want.len(),
{
    if want.len() > 0 {
        let init = want.drop_last();
        let mid = canvas.then_attach_all(init);
        lemma_attach_all_told(canvas, init, from, one, attach);
        lemma_attach_all(canvas, init, one);
        lemma_attach_told(mid, want.last(), from, one, attach);
        lemma_contains_last(want, one);
    }
}

proof fn lemma_once_init(drawn: Seq<Shell<Seq<char>>>, one: u128)
    requires
        drawn.len() > 0,
        drawn_once(drawn),
    ensures
        drawn_once(drawn.drop_last()),
        drawn.last().session == one ==> shell_in(drawn.drop_last(), one) is None,
{
    let init = drawn.drop_last();
    assert forall|i: int, j: int| 0 <= i < j < init.len() implies (#[trigger] init[i]).session != (
    #[trigger] init[j]).session by {
        assert(init[i] == drawn[i] && init[j] == drawn[j]);
    }
    lemma_drawn(init, one);
    if drawn.last().session == one && shell_in(init, one) is Some {
        let i = choose|i: int| 0 <= i < init.len() && (#[trigger] init[i]).session == one;
        assert(drawn[i].session != drawn[drawn.len() - 1].session);
    }
}

proof fn lemma_detach_all_told(
    canvas: Canvas,
    drawn: Seq<Shell<Seq<char>>>,
    want: Seq<u128>,
    from: nat,
    one: u128,
    attach: bool,
)
    requires
        from <= canvas.out.len(),
        drawn_once(drawn),
    ensures
        ({
            let r = canvas.then_detach_all(drawn, want);
            &&& canvas.out.len() <= r.out.len()
            &&& times_told(r.out, from, one, attach) == times_told(canvas.out, from, one, attach)
                + if !attach && !want.contains(one) && shell_in(drawn, one) is Some
                && canvas.shells.alive(one) {
                1nat
            } else {
                0nat
            }
        }),
    decreases drawn.len(),
{
    if drawn.len() > 0 {
        let init = drawn.drop_last();
        let mid = canvas.then_detach_all(init, want);
        let session = drawn.last().session;
        lemma_once_init(drawn, one);
        lemma_detach_all_told(canvas, init, want, from, one, attach);
        lemma_detach_all(canvas, init, want, one);
        assert(drawn == init.push(drawn.last()));
        lemma_drawn_push(init, drawn.last(), one);
        lemma_told_push(
            mid.out,
            Effect::Send(ClientMsg::Term { session, req: TermRequest::Detach }),
            from,
            one,
            attach,
        );
    }
}

proof fn lemma_want_told(
    screens: ScreenState,
    want: Seq<(u128, CaptureTarget)>,
    out: Seq<Done>,
    from: nat,
    one: u128,
    attach: bool,
)
    requires
        from <= out.len(),
    ensures
        out.len() <= screens.then_want_all(want, out).1.len(),
        times_told(screens.then_want_all(want, out).1, from, one, attach) == times_told(
            out,
            from,
            one,
            attach,
        ),
    decreases want.len(),
{
    if want.len() > 0 {
        lemma_want_told(screens, want.drop_last(), out, from, one, attach);
        let (_, said) = screens.then_want_all(want.drop_last(), out);
        lemma_told_push(
            said,
            screen_req(ScreenRequest::Open { target: want.last().1 }),
            from,
            one,
            attach,
        );
    }
}

proof fn lemma_drop_told(
    screens: ScreenState,
    n: int,
    want: Seq<(u128, CaptureTarget)>,
    out: Seq<Done>,
    from: nat,
    one: u128,
    attach: bool,
)
    requires
        from <= out.len(),
    ensures
        out.len() <= screens.then_drop(n, want, out).2.len(),
        times_told(screens.then_drop(n, want, out).2, from, one, attach) == times_told(
            out,
            from,
            one,
            attach,
        ),
    decreases n,
{
    if n > 0 {
        lemma_drop_told(screens, n - 1, want, out, from, one, attach);
        let (_, _, said) = screens.then_drop(n - 1, want, out);
        lemma_told_push(
            said,
            screen_req(ScreenRequest::Close { stream: screens.open[n - 1].stream }),
            from,
            one,
            attach,
        );
    }
}

proof fn lemma_streams_told(
    screens: ScreenState,
    items: Seq<Item<Seq<char>>>,
    out: Seq<Done>,
    from: nat,
    one: u128,
    attach: bool,
)
    requires
        from <= out.len(),
    ensures
        out.len() <= screens.then_reconcile(items, out).1.len(),
        times_told(screens.then_reconcile(items, out).1, from, one, attach) == times_told(
            out,
            from,
            one,
            attach,
        ),
{
    let ask = some_untitled(screens.titles, items) && !screens.titles_requested;
    let first = ScreenState { titles_requested: screens.titles_requested || ask, ..screens };
    lemma_told_push(out, screen_req(ScreenRequest::List), from, one, attach);
    let said = if ask {
        out.push(screen_req(ScreenRequest::List))
    } else {
        out
    };
    let want = wanted(items);
    lemma_want_told(first, want, said, from, one, attach);
    let (opened, told) = first.then_want_all(want, said);
    lemma_drop_told(opened, opened.open.len() as int, want, told, from, one, attach);
}

proof fn lemma_attach_once(canvas: Canvas, want: Seq<u128>)
    requires
        drawn_once(canvas.shells.terminals),
    ensures
        drawn_once(canvas.then_attach_all(want).shells.terminals),
    decreases want.len(),
{
    if want.len() > 0 {
        let mid = canvas.then_attach_all(want.drop_last());
        lemma_attach_once(canvas, want.drop_last());
        let session = want.last();
        if !mid.shells.drawn(session) && mid.shells.alive(session) {
            let before = mid.shells.terminals;
            let now = before.push(Shell { session, title: None });
            lemma_drawn(before, session);
            assert forall|i: int, j: int| 0 <= i < j < now.len() implies (
            #[trigger] now[i]).session != (#[trigger] now[j]).session by {
                assert(now[i] == before[i]);
                if j < before.len() {
                    assert(now[j] == before[j]);
                } else if now[i].session == session {
                    assert(before[i].session == session);
                }
            }
        }
    }
}

/// Leaving shells out leaves the rest once.
proof fn lemma_without_once(terminals: Seq<Shell<Seq<char>>>, gone: u128)
    requires
        drawn_once(terminals),
    ensures
        drawn_once(shells_without(terminals, gone)),
    decreases terminals.len(),
{
    if terminals.len() > 0 {
        let init = terminals.drop_last();
        let last = terminals.last();
        lemma_once_init(terminals, last.session);
        lemma_without_once(init, gone);
        lemma_undrawn(init, gone, last.session);
        let rest = shells_without(init, gone);
        lemma_drawn(rest, last.session);
        if last.session != gone {
            let all = rest.push(last);
            assert forall|i: int, j: int| 0 <= i < j < all.len() implies (
            #[trigger] all[i]).session != (#[trigger] all[j]).session by {
                assert(all[i] == rest[i]);
                if j < rest.len() {
                    assert(all[j] == rest[j]);
                } else if rest[i].session == last.session {
                    assert(false);
                }
            }
        }
    }
}

proof fn lemma_detach_once(canvas: Canvas, drawn: Seq<Shell<Seq<char>>>, want: Seq<u128>)
    requires
        drawn_once(canvas.shells.terminals),
    ensures
        drawn_once(canvas.then_detach_all(drawn, want).shells.terminals),
    decreases drawn.len(),
{
    if drawn.len() > 0 {
        let init = drawn.drop_last();
        lemma_detach_once(canvas, init, want);
        lemma_without_once(
            canvas.then_detach_all(init, want).shells.terminals,
            drawn.last().session,
        );
    }
}

/// Reconciling asks the host once for the rows of each shell that is newly drawn and of no other,
/// and lets go once of those of each shell that is drawn no more while its session is alive, and of
/// no other. Each shell stays drawn once.
pub proof fn law_reconciling_tells_of_each_shell_once(canvas: Canvas, session: u128)
    requires
        drawn_once(canvas.shells.terminals),
    ensures
        ({
            let r = canvas.then_reconcile();
            let from = canvas.out.len();
            &&& from <= r.out.len()
            &&& times_told(r.out, from, session, true) == if to_draw(canvas, session)
                && !canvas.shells.drawn(session) {
                1nat
            } else {
                0nat
            }
            &&& times_told(r.out, from, session, false) == if canvas.shells.drawn(session)
                && !to_draw(canvas, session) && canvas.shells.alive(session) {
                1nat
            } else {
                0nat
            }
            &&& drawn_once(r.shells.terminals)
        }),
{
    reveal(Canvas::then_reconcile);
    let from = canvas.out.len();
    let first = Canvas { closed: still_closed(canvas.closed, canvas.shells), ..canvas };
    let want = drawn_after(canvas);
    let attached = first.then_attach_all(want);
    let settled = shells_settled(canvas);
    lemma_attach_once(first, want);
    lemma_detach_once(attached, attached.shells.terminals, want);
    lemma_drawn_after(canvas, session);
    lemma_attach_all(first, want, session);
    lemma_shells_settled(canvas, session);
    law_reconciling_draws_what_is_here(canvas, session);
    lemma_told(canvas, session, true);
    lemma_told(canvas, session, false);
}

proof fn lemma_told(canvas: Canvas, session: u128, attach: bool)
    requires
        drawn_once(canvas.shells.terminals),
    ensures
        ({
            let r = canvas.then_reconcile();
            let from = canvas.out.len();
            let draw = to_draw(canvas, session);
            let drawn = canvas.shells.drawn(session);
            &&& from <= r.out.len()
            &&& times_told(r.out, from, session, attach) == if (attach && draw && !drawn) || (
            !attach && !draw && drawn && canvas.shells.alive(session)) {
                1nat
            } else {
                0nat
            }
        }),
{
    reveal(Canvas::then_reconcile);
    let from = canvas.out.len();
    let first = Canvas { closed: still_closed(canvas.closed, canvas.shells), ..canvas };
    let want = drawn_after(canvas);
    let attached = first.then_attach_all(want);
    let settled = shells_settled(canvas);
    lemma_drawn_after(canvas, session);
    lemma_attach_once(first, want);
    lemma_attach_all(first, want, session);
    lemma_attach_all_told(first, want, from, session, attach);
    lemma_detach_all_told(attached, attached.shells.terminals, want, from, session, attach);
    lemma_shells_settled(canvas, session);
    let (_, out) = settled.screens.then_reconcile(settled.doc.items, settled.out);
    lemma_streams_told(settled.screens, settled.doc.items, settled.out, from, session, attach);
    let r = canvas.then_reconcile();
    lemma_told_push(
        out,
        Effect::RunTargets(r.shells.run_target() is Some),
        from,
        session,
        attach,
    );
}

/// What can be taken back stays so.
proof fn lemma_still_closed_stays(closed: Seq<ClosedCard<Seq<char>>>, canvas: Canvas)
    ensures
        still_closed(still_closed(closed, canvas.shells), canvas.shells) == still_closed(
            closed,
            canvas.shells,
        ),
    decreases closed.len(),
{
    if closed.len() > 0 {
        let init = closed.drop_last();
        lemma_still_closed_stays(init, canvas);
        if !(closed.last().session matches Some(s) && !canvas.shells.alive(s)) {
            let all = still_closed(init, canvas.shells).push(closed.last());
            assert(all.drop_last() == still_closed(init, canvas.shells));
        }
    }
}

proof fn lemma_closed_by_sessions(closed: Seq<ClosedCard<Seq<char>>>, a: Canvas, b: Canvas)
    requires
        a.shells.sessions == b.shells.sessions,
    ensures
        still_closed(closed, a.shells) == still_closed(closed, b.shells),
        kept_for(closed, a.shells) == kept_for(closed, b.shells),
    decreases closed.len(),
{
    if closed.len() > 0 {
        lemma_closed_by_sessions(closed.drop_last(), a, b);
    }
}

proof fn lemma_attach_drawn(canvas: Canvas, want: Seq<u128>)
    requires
        forall|i: int| 0 <= i < want.len() ==> canvas.shells.drawn(#[trigger] want[i]),
    ensures
        canvas.then_attach_all(want) == canvas,
    decreases want.len(),
{
    if want.len() > 0 {
        let init = want.drop_last();
        assert forall|i: int| 0 <= i < init.len() implies canvas.shells.drawn(
            #[trigger] init[i],
        ) by {
            assert(init[i] == want[i]);
        }
        lemma_attach_drawn(canvas, init);
        assert(canvas.shells.drawn(want[want.len() - 1]));
    }
}

proof fn lemma_detach_wanted(canvas: Canvas, drawn: Seq<Shell<Seq<char>>>, want: Seq<u128>)
    requires
        forall|i: int| 0 <= i < drawn.len() ==> want.contains((#[trigger] drawn[i]).session),
    ensures
        canvas.then_detach_all(drawn, want) == canvas,
    decreases drawn.len(),
{
    if drawn.len() > 0 {
        let init = drawn.drop_last();
        assert forall|i: int| 0 <= i < init.len() implies want.contains(
            (#[trigger] init[i]).session,
        ) by {
            assert(init[i] == drawn[i]);
        }
        lemma_detach_wanted(canvas, init, want);
        assert(want.contains(drawn[drawn.len() - 1].session));
    }
}

/// Once the shells are settled they stay so: nothing changes, and nothing is said.
proof fn lemma_settled_stays(canvas: Canvas)
    ensures
        shells_settled(canvas.then_reconcile()) == canvas.then_reconcile(),
{
    let r = canvas.then_reconcile();
    law_reconciling_draws_what_is_here(canvas, 0);
    lemma_still_closed_stays(canvas.closed, canvas);
    lemma_closed_by_sessions(r.closed, r, canvas);
    lemma_closed_by_sessions(still_closed(r.closed, r.shells), r, canvas);
    lemma_carded_by_sessions(r.doc.items, r, canvas);
    let want = drawn_after(r);
    assert(want == drawn_after(canvas));
    assert forall|i: int| 0 <= i < want.len() implies r.shells.drawn(#[trigger] want[i]) by {
        assert(want.contains(want[i]));
        lemma_drawn_after(canvas, want[i]);
        law_reconciling_draws_what_is_here(canvas, want[i]);
    }
    lemma_attach_drawn(r, want);
    let drawn = r.shells.terminals;
    assert forall|i: int| 0 <= i < drawn.len() implies want.contains(
        (#[trigger] drawn[i]).session,
    ) by {
        let session = drawn[i].session;
        lemma_drawn(drawn, session);
        lemma_drawn_after(canvas, session);
        law_reconciling_draws_what_is_here(canvas, session);
    }
    lemma_detach_wanted(r, drawn, want);
    assert((Canvas { closed: still_closed(r.closed, r.shells), ..r }) == r);
}

proof fn lemma_carded_by_sessions(items: Seq<Item<Seq<char>>>, a: Canvas, b: Canvas)
    requires
        a.shells.sessions == b.shells.sessions,
    ensures
        carded(items, a.shells) == carded(items, b.shells),
    decreases items.len(),
{
    if items.len() > 0 {
        lemma_carded_by_sessions(items.drop_last(), a, b);
    }
}

/// Reconciling again at once tells the host nothing of any shell and changes none; what it says is
/// what the streams are asked, and whether there is a shell to run in.
pub proof fn law_reconciling_again_leaves_the_shells(canvas: Canvas)
    ensures
        ({
            let r = canvas.then_reconcile();
            let again = r.then_reconcile();
            &&& again.shells == r.shells
            &&& again.closed == r.closed
            &&& again.active == r.active
            &&& again.out == r.screens.then_reconcile(r.doc.items, r.out).1.push(
                Effect::RunTargets(r.shells.run_target() is Some),
            )
        }),
{
    let r = canvas.then_reconcile();
    lemma_settled_stays(canvas);
    law_reconciling_draws_what_is_here(canvas, 0);
    law_reconciling_draws_what_is_here(r, 0);
    assert(r.then_reconcile().out == r.screens.then_reconcile(r.doc.items, r.out).1.push(
        Effect::RunTargets(r.shells.run_target() is Some),
    )) by {
        reveal(Canvas::then_reconcile);
    }
    assert(r.then_reconcile().shells == r.shells) by {
        reveal(Canvas::then_reconcile);
    }
    assert(r.then_reconcile().closed == r.closed) by {
        reveal(Canvas::then_reconcile);
    }
    assert(r.then_reconcile().active == r.active) by {
        reveal(Canvas::then_reconcile);
    }
}

/// A stream ends whose card is still a window on the canvas, asleep: its title goes with it.
pub open spec fn loses_title(screens: ScreenState, items: Seq<Item<Seq<char>>>) -> bool {
    exists|i: int, k: int|
        0 <= i < screens.open.len() && 0 <= k < items.len() && (#[trigger] screens.open[i]).item
            == (#[trigger] items[k]).id && items[k].kind is Window && !is_wanted(
            wanted(items),
            screens.open[i].item,
        )
}

/// The card's target is on its way to a card that wants it no more, and it has no stream of its
/// own, here or on its way: it asks the next time.
pub open spec fn must_ask_later(
    screens: ScreenState,
    want: Seq<(u128, CaptureTarget)>,
    one: (u128, CaptureTarget),
) -> bool {
    abandoned(screens.pending, want, one.1) && stream_on(screens.open, one.0) is None && !asked_on(
        screens.pending,
        one.0,
    )
}

proof fn lemma_want_keeps(
    screens: ScreenState,
    want: Seq<(u128, CaptureTarget)>,
    out: Seq<Done>,
)
    ensures
        ({
            let r = screens.then_want_all(want, out).0;
            &&& screens.pending.len() <= r.pending.len()
            &&& forall|i: int|
                0 <= i < screens.pending.len() ==> #[trigger] r.pending[i] == screens.pending[i]
            &&& r.open == screens.open
            &&& r.titles == screens.titles
            &&& r.titles_requested == screens.titles_requested
        }),
    decreases want.len(),
{
    if want.len() > 0 {
        lemma_want_keeps(screens, want.drop_last(), out);
    }
}

proof fn lemma_still_asked_on(
    pending: Seq<(CaptureTarget, u128)>,
    want: Seq<(u128, CaptureTarget)>,
    i: int,
)
    requires
        0 <= i < pending.len(),
        is_wanted(want, pending[i].1),
    ensures
        asked_on(still_asked(pending, want), pending[i].1),
    decreases pending.len(),
{
    let init = pending.drop_last();
    let all = still_asked(pending, want);
    if i == pending.len() - 1 {
        assert(all[all.len() - 1] == pending[i]);
    } else {
        lemma_still_asked_on(init, want, i);
        let rest = still_asked(init, want);
        let k = choose|k: int| 0 <= k < rest.len() && (#[trigger] rest[k]).1 == pending[i].1;
        assert(all[k] == rest[k]);
    }
}

/// The titles that are left after the streams whose card wants none were closed.
proof fn lemma_drop_titles(
    screens: ScreenState,
    n: int,
    want: Seq<(u128, CaptureTarget)>,
    out: Seq<Done>,
    id: u128,
)
    requires
        0 <= n <= screens.open.len(),
        forall|i: int|
            0 <= i < screens.open.len() && (#[trigger] screens.open[i]).item == id ==> is_wanted(
                want,
                id,
            ),
    ensures
        screens.then_drop(n, want, out).1.contains_key(id) == screens.titles.contains_key(id),
    decreases n,
{
    if n > 0 {
        lemma_drop_titles(screens, n - 1, want, out, id);
    }
}

proof fn lemma_stream_at(open: Seq<Stream>, i: int)
    requires
        0 <= i < open.len(),
    ensures
        stream_on(open, open[i].item) is Some,
    decreases open.len(),
{
    if i > 0 && open[0].item != open[i].item {
        assert(open.drop_first()[i - 1] == open[i]);
        lemma_stream_at(open.drop_first(), i - 1);
    }
}

proof fn lemma_want_served(
    screens: ScreenState,
    want: Seq<(u128, CaptureTarget)>,
    out: Seq<Done>,
)
    requires
        forall|i: int| 0 <= i < want.len() ==> served(screens, #[trigger] want[i]),
    ensures
        screens.then_want_all(want, out) == (screens, out),
    decreases want.len(),
{
    if want.len() > 0 {
        let init = want.drop_last();
        assert forall|i: int| 0 <= i < init.len() implies served(screens, #[trigger] init[i]) by {
            assert(init[i] == want[i]);
        }
        lemma_want_served(screens, init, out);
        assert(served(screens, want[want.len() - 1]));
    }
}

proof fn lemma_drop_none(
    screens: ScreenState,
    n: int,
    want: Seq<(u128, CaptureTarget)>,
    out: Seq<Done>,
)
    requires
        0 <= n <= screens.open.len(),
        forall|i: int|
            0 <= i < screens.open.len() ==> is_wanted(want, (#[trigger] screens.open[i]).item),
    ensures
        screens.then_drop(n, want, out) == (screens.open.take(n), screens.titles, out),
    decreases n,
{
    if n > 0 {
        lemma_drop_none(screens, n - 1, want, out);
        assert(is_wanted(want, screens.open[n - 1].item));
        assert(screens.open.take(n) =~= screens.open.take(n - 1).push(screens.open[n - 1]));
    } else {
        assert(screens.open.take(0) =~= Seq::<Stream>::empty());
    }
}

proof fn lemma_still_asked_all(
    pending: Seq<(CaptureTarget, u128)>,
    want: Seq<(u128, CaptureTarget)>,
)
    requires
        all_wanted(pending, want),
    ensures
        still_asked(pending, want) == pending,
    decreases pending.len(),
{
    if pending.len() > 0 {
        let init = pending.drop_last();
        assert forall|i: int| 0 <= i < init.len() implies is_wanted(
            want,
            (#[trigger] init[i]).1,
        ) by {
            assert(init[i] == pending[i]);
        }
        lemma_still_asked_all(init, want);
        assert(is_wanted(want, pending[pending.len() - 1].1));
        assert(pending == init.push(pending.last()));
    }
}

/// What the second reconciling of the streams needs of the first.
proof fn lemma_streams_settle(
    screens: ScreenState,
    items: Seq<Item<Seq<char>>>,
    out: Seq<Done>,
)
    requires
        asked_once(screens.pending),
        forall|i: int|
            0 <= i < wanted(items).len() ==> !must_ask_later(
                screens,
                wanted(items),
                #[trigger] wanted(items)[i],
            ),
        screens.titles_requested || some_untitled(screens.titles, items) || !loses_title(
            screens,
            items,
        ),
    ensures
        ({
            let r = screens.then_reconcile(items, out).0;
            let want = wanted(items);
            &&& all_wanted(r.pending, want)
            &&& forall|i: int| 0 <= i < want.len() ==> served(r, #[trigger] want[i])
            &&& forall|i: int| 0 <= i < r.open.len() ==> is_wanted(want, (#[trigger] r.open[i]).item)
            &&& !some_untitled(r.titles, items) || r.titles_requested
        }),
{
    let want = wanted(items);
    let r = screens.then_reconcile(items, out).0;
    let ask = some_untitled(screens.titles, items) && !screens.titles_requested;
    let first = ScreenState { titles_requested: screens.titles_requested || ask, ..screens };
    let said = if ask {
        out.push(screen_req(ScreenRequest::List))
    } else {
        out
    };
    let (opened, told) = first.then_want_all(want, said);
    lemma_want_keeps(first, want, said);
    law_every_screen_card_is_served(screens, items, out, 0);
    assert forall|i: int| 0 <= i < want.len() implies served(r, #[trigger] want[i]) by {
        let one = want[i];
        assert(is_wanted(want, one.0));
        law_every_screen_card_is_served(screens, items, out, one.0);
        if asked_on(screens.pending, one.0) {
            let k = choose|k: int|
                0 <= k < screens.pending.len() && (#[trigger] screens.pending[k]).1 == one.0;
            assert(opened.pending[k] == screens.pending[k]);
            lemma_still_asked_on(opened.pending, want, k);
        }
        assert(!must_ask_later(screens, want, one));
    }
    assert forall|i: int| 0 <= i < r.open.len() implies is_wanted(
        want,
        (#[trigger] r.open[i]).item,
    ) by {
        lemma_stream_at(r.open, i);
        law_every_screen_card_is_served(screens, items, out, r.open[i].item);
    }
    if some_untitled(r.titles, items) && !r.titles_requested {
        assert(!some_untitled(screens.titles, items) && !screens.titles_requested);
        let k = choose|k: int| 0 <= k < items.len() && untitled(r.titles, #[trigger] items[k]);
        let id = items[k].id;
        assert(!untitled(screens.titles, items[k]));
        assert forall|i: int|
            0 <= i < opened.open.len() && (#[trigger] opened.open[i]).item == id implies is_wanted(
            want,
            id,
        ) by {
            if !is_wanted(want, id) {
                assert(screens.open[i].item == items[k].id);
                assert(loses_title(screens, items));
            }
        }
        lemma_drop_titles(opened, opened.open.len() as int, want, told, id);
        assert(false);
    }
}

/// A second reconciling at once sends the host nothing. (Two things are asked for the next time:
/// the stream of a card whose target was on its way to one that is gone, and the titles where a
/// window that fell asleep took its own with it.)
pub proof fn law_reconciling_again_sends_nothing(canvas: Canvas)
    requires
        asked_once(canvas.screens.pending),
        forall|i: int|
            0 <= i < wanted(canvas.doc.items).len() ==> !must_ask_later(
                canvas.screens,
                wanted(canvas.doc.items),
                #[trigger] wanted(canvas.doc.items)[i],
            ),
        canvas.screens.titles_requested || some_untitled(canvas.screens.titles, canvas.doc.items)
            || !loses_title(canvas.screens, canvas.doc.items),
    ensures
        ({
            let r = canvas.then_reconcile();
            r.then_reconcile().out == r.out.push(
                Effect::RunTargets(r.shells.run_target() is Some),
            )
        }),
{
    let r = canvas.then_reconcile();
    let items = canvas.doc.items;
    let want = wanted(items);
    law_reconciling_again_leaves_the_shells(canvas);
    law_reconciling_draws_what_is_here(canvas, 0);
    let settled = shells_settled(canvas);
    lemma_shells_settled(canvas, 0);
    assert(r.screens == settled.screens.then_reconcile(items, settled.out).0) by {
        reveal(Canvas::then_reconcile);
    }
    lemma_streams_settle(canvas.screens, items, settled.out);
    let n = r.screens.open.len() as int;
    let first = ScreenState {
        titles_requested: r.screens.titles_requested,
        ..r.screens
    };
    assert(first == r.screens);
    lemma_want_served(r.screens, want, r.out);
    lemma_drop_none(r.screens, n, want, r.out);
    assert(r.screens.open.take(n) =~= r.screens.open);
    lemma_still_asked_all(r.screens.pending, want);
}

} // verus!
