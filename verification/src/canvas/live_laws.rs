//! What the canvas promises to make of what the host tells it.
use vstd::prelude::*;

use crate::agent::{banner_body, wish, Agent, AgentStatus, BlockReason};
use crate::canvas::choice_laws::{blocked_on_you, reads_before};
use crate::canvas::doc::{
    law_reading_goes_by_rows, reading_key, reading_keys, Doc, Item, ItemKind, Op,
};
use crate::canvas::event_laws::law_the_attention_walk_goes_round;
use crate::canvas::msg::{CanvasEvent, Done, Effect};
use crate::canvas::reconcile_laws::law_reconciling_draws_what_is_here;
use crate::canvas::shells::{by_id, terminal_ids, touched, Session, ShellState};
use crate::canvas::terms::{lemma_card, lemma_first_for, lemma_shell_shown, runs, shell_shown};
use crate::canvas::titles::{banner_of, titled, Ended};
use crate::canvas::view::live::{created_for, CanvasSync};
use crate::canvas::view::{is_waiting, waiting, Canvas};
use crate::list::{dropped, first_index, lemma_first_index};
use crate::order::{before, lemma_an_order};

verus! {

/// What was said between two states of the canvas.
pub open spec fn said(was: Canvas, now: Canvas) -> Seq<Done> {
    now.out.skip(was.out.len() as int)
}

/// Nothing said before is taken back.
pub open spec fn goes_on(was: Canvas, now: Canvas) -> bool {
    now.out.len() >= was.out.len() && now.out.take(was.out.len() as int) == was.out
}

spec fn one_if(given: bool, one: Done) -> Seq<Done> {
    if given {
        seq![one]
    } else {
        Seq::empty()
    }
}

proof fn lemma_in_sum(a: Seq<Done>, b: Seq<Done>, x: Done)
    ensures
        (a + b).contains(x) <==> (a.contains(x) || b.contains(x)),
{
    let all = a + b;
    if a.contains(x) {
        let i = choose|i: int| 0 <= i < a.len() && a[i] == x;
        assert(all[i] == x);
    }
    if b.contains(x) {
        let i = choose|i: int| 0 <= i < b.len() && b[i] == x;
        assert(all[a.len() + i] == x);
    }
    if all.contains(x) {
        let i = choose|i: int| 0 <= i < all.len() && all[i] == x;
        if i < a.len() {
            assert(a[i] == x);
        } else {
            assert(b[i - a.len()] == x);
        }
    }
}

proof fn lemma_one_if(given: bool, one: Done, x: Done)
    ensures
        one_if(given, one).contains(x) <==> (given && one == x),
{
    if given {
        assert(one_if(given, one)[0] == one);
    }
}

proof fn lemma_among(
    a: (bool, Done),
    b: (bool, Done),
    c: (bool, Done),
    d: (bool, Done),
    rest: Seq<Done>,
    x: Done,
)
    ensures
        (one_if(a.0, a.1) + one_if(b.0, b.1) + one_if(c.0, c.1) + one_if(d.0, d.1)
            + rest).contains(x) <==> (a.0 && a.1 == x || b.0 && b.1 == x || c.0 && c.1 == x || d.0
            && d.1 == x || rest.contains(x)),
{
    let (p, q, r, s) = (one_if(a.0, a.1), one_if(b.0, b.1), one_if(c.0, c.1), one_if(d.0, d.1));
    lemma_one_if(a.0, a.1, x);
    lemma_one_if(b.0, b.1, x);
    lemma_one_if(c.0, c.1, x);
    lemma_one_if(d.0, d.1, x);
    lemma_in_sum(p, q, x);
    lemma_in_sum(p + q, r, x);
    lemma_in_sum(p + q + r, s, x);
    lemma_in_sum(p + q + r + s, rest, x);
}

/// The agent asks the human for something.
pub open spec fn asks(agent: Agent<Seq<char>>) -> bool {
    match agent.status {
        AgentStatus::Blocked(BlockReason::Permission { .. }) => true,
        AgentStatus::Blocked(BlockReason::Question) => true,
        AgentStatus::Blocked(BlockReason::Elicitation) => true,
        _ => false,
    }
}

/// An agent that wants the human is shown in a banner, unless they are looking at the app, and the
/// app is told to draw attention to its session; one that asks for nothing any more takes its banner
/// back; the terminal that is drawn hears of it either way. What the host said last is what is kept
/// of an agent, and of one that is gone nothing is.
pub proof fn law_an_agent_that_wants_you_is_heard(
    canvas: Canvas,
    event: Agent<Seq<char>>,
    looking: bool,
)
    ensures
        ({
            let next = canvas.then_agent(event, looking);
            let session = event.session;
            let here = !(event.status is Absent);
            let new = said(canvas, next);
            &&& goes_on(canvas, next)
            &&& (exists|title: Seq<char>, body: Seq<char>|
                new.contains(#[trigger] bannered(session, title, body))) <==> (here
                && event.attention && !looking)
            &&& here && event.attention && !looking ==> new.contains(
                bannered(session, titled(canvas.name_for(session), wish(event)), banner_body(event)),
            )
            &&& new.contains(Effect::Emit(CanvasEvent::Attention(session))) <==> (here
                && event.attention)
            &&& new.contains(Effect::Dismiss(session)) <==> (here && !event.attention && !asks(
                event,
            ))
            &&& new.contains(Effect::AgentStatus { session, status: event.status })
                <==> shell_shown(canvas, session)
            &&& here ==> next.shells.agents == canvas.shells.agents.insert(session, event)
            &&& !here ==> next.shells.agents == canvas.shells.agents.remove(session)
            &&& next.doc == canvas.doc && next.active == canvas.active && next.pending
                == canvas.pending
        }),
{
    lemma_shell_shown(canvas, event.session);
    let next = canvas.then_agent(event, looking);
    let session = event.session;
    let here = !(event.status is Absent);
    let new = said(canvas, next);
    let status: Done = Effect::AgentStatus { session, status: event.status };
    let title = titled(canvas.name_for(session), wish(event));
    let banner = bannered(session, title, banner_body(event));
    let dismiss: Done = Effect::Dismiss(session);
    let attention: Done = Effect::Emit(CanvasEvent::Attention(session));
    let a = (shell_shown(canvas, session), status);
    let b = (here && event.attention && !looking, banner);
    let c = (here && !event.attention && !asks(event), dismiss);
    let d = (here && event.attention, attention);
    let four = one_if(a.0, a.1) + one_if(b.0, b.1) + one_if(c.0, c.1) + one_if(d.0, d.1);
    let rest = new.skip(four.len() as int);
    assert(new =~= four + rest);
    assert(next.out.take(canvas.out.len() as int) =~= canvas.out);
    assert forall|i: int| 0 <= i < rest.len() implies match #[trigger] rest[i] {
        Effect::Awake(_) => true,
        Effect::Emit(CanvasEvent::NeedsYou(_)) => true,
        Effect::RunTargets(_) => true,
        _ => false,
    } by {}
    lemma_among(a, b, c, d, rest, status);
    lemma_among(a, b, c, d, rest, banner);
    lemma_among(a, b, c, d, rest, dismiss);
    lemma_among(a, b, c, d, rest, attention);
    assert forall|t: Seq<char>, body: Seq<char>|
        new.contains(#[trigger] bannered(session, t, body)) implies here && event.attention
        && !looking by {
        lemma_among(a, b, c, d, rest, bannered(session, t, body));
    }
}

/// A banner about a session.
pub open spec fn bannered(session: u128, title: Seq<char>, body: Seq<char>) -> Done {
    Effect::Banner { session, title, body }
}

/// A program that asks for a notification gets its banner, unless the human is looking at the app,
/// and its session is drawn attention to either way.
pub proof fn law_a_program_that_asks_is_heard(
    canvas: Canvas,
    session: u128,
    title: Seq<char>,
    body: Seq<char>,
    looking: bool,
)
    ensures
        ({
            let next = canvas.then_program(session, title, body, looking);
            let attention: Done = Effect::Emit(CanvasEvent::Attention(session));
            let said = banner_of(canvas.name_for(session), title, body);
            &&& looking ==> next.out == canvas.out.push(attention)
            &&& !looking ==> next.out == canvas.out.push(bannered(session, said.0, said.1)).push(
                attention,
            )
            &&& next.doc == canvas.doc && next.shells == canvas.shells && next.active
                == canvas.active
        }),
{
}

proof fn lemma_who_waits(canvas: Canvas, items: Seq<Item<Seq<char>>>)
    ensures
        waiting(items, canvas.shells.agents) == items.filter(
            |item: Item<Seq<char>>| blocked_on_you(canvas, item),
        ),
    decreases items.len(),
{
    reveal(Seq::filter);
    if items.len() > 0 {
        lemma_who_waits(canvas, items.drop_last());
    }
}

/// The chrome is told how many cards there are whose agent is blocked on the human.
pub proof fn law_the_chrome_counts_who_waits(canvas: Canvas)
    requires
        canvas.doc.items.len() <= usize::MAX,
    ensures
        canvas.then_count().out.len() == canvas.out.len() + 1,
        canvas.then_count().out.last() matches Effect::Emit(CanvasEvent::NeedsYou(n)) && n
            == canvas.doc.items.filter(
            |item: Item<Seq<char>>| blocked_on_you(canvas, item),
        ).len(),
{
    let pick = |item: Item<Seq<char>>| blocked_on_you(canvas, item);
    lemma_who_waits(canvas, canvas.doc.items);
    canvas.doc.items.lemma_filter_len(pick);
}

/// Those who wait on the human are listed in the order their cards are read, each card with the
/// session it runs.
pub proof fn law_who_waits_is_listed_as_read(canvas: Canvas) -> (at: Seq<int>)
    requires
        canvas.doc.items.len() <= usize::MAX,
    ensures
        at.len() == canvas.needs_you().len(),
        forall|i: int|
            0 <= i < at.len() ==> {
                &&& 0 <= #[trigger] at[i] < canvas.doc.items.len()
                &&& blocked_on_you(canvas, canvas.doc.items[at[i]])
                &&& canvas.needs_you()[i].0 == canvas.doc.items[at[i]].id
                &&& runs(canvas.doc.items[at[i]], canvas.needs_you()[i].1)
            },
        forall|i: int, j: int|
            0 <= i < j < at.len() ==> !reads_before(
                canvas.doc.items[#[trigger] at[j]].rect,
                canvas.doc.items[#[trigger] at[i]].rect,
            ),
{
    let items = canvas.doc.items;
    let found = waiting(items, canvas.shells.agents);
    let places = lemma_waiting_places(canvas, items);
    let keys = reading_keys(found);
    let order = lemma_an_order(keys);
    let at = Seq::new(order.len(), |i: int| places[order[i] as int]);
    assert forall|i: int, j: int| 0 <= i < j < at.len() implies !reads_before(
        items[#[trigger] at[j]].rect,
        items[#[trigger] at[i]].rect,
    ) by {
        assert(before(keys, order[i], order[j]));
        let (a, b) = (found[order[i] as int].rect, found[order[j] as int].rect);
        assert(keys[order[i] as int] == reading_key(a));
        assert(keys[order[j] as int] == reading_key(b));
        law_reading_goes_by_rows(b, a);
    }
    at
}

proof fn lemma_waiting_places(canvas: Canvas, items: Seq<Item<Seq<char>>>) -> (at: Seq<int>)
    ensures
        at.len() == waiting(items, canvas.shells.agents).len(),
        at.len() <= items.len(),
        forall|i: int|
            0 <= i < at.len() ==> 0 <= #[trigger] at[i] < items.len() && items[at[i]] == waiting(
                items,
                canvas.shells.agents,
            )[i] && blocked_on_you(canvas, items[at[i]]),
    decreases items.len(),
{
    if items.len() == 0 {
        Seq::empty()
    } else {
        let init = lemma_waiting_places(canvas, items.drop_last());
        if is_waiting(items.last(), canvas.shells.agents) {
            init.push(items.len() - 1)
        } else {
            init
        }
    }
}

/// Stepping to the next who waits goes to the one after the active card, from the last round to the
/// first, and gives it the keyboard.
pub proof fn law_the_next_who_waits_takes_the_keyboard(canvas: Canvas, i: int)
    requires
        canvas.doc.sound(),
        canvas.doc.items.len() <= usize::MAX,
        0 <= i < canvas.needs_you().len(),
        canvas.active == Some(canvas.needs_you()[i].0),
    ensures
        canvas.then_next_attention().pending.focus == Some(
            canvas.needs_you()[if i + 1 < canvas.needs_you().len() {
                i + 1
            } else {
                0
            }].1,
        ),
{
    let n = canvas.needs_you().len() as int;
    law_the_attention_walk_goes_round(canvas, i);
    let k = if i + 1 < n {
        i + 1
    } else {
        0
    };
    assert((i + 1) % n == k) by (nonlinear_arith)
        requires
            0 <= i < n,
            k == (if i + 1 < n {
                i + 1
            } else {
                0
            }),
    ;
    let at = law_who_waits_is_listed_as_read(canvas);
    let session = canvas.needs_you()[k].1;
    let item = canvas.doc.items[at[k]];
    lemma_card(canvas.doc, item);
    lemma_first_for(canvas, session);
}

/// A canvas that takes over from another makes the same card active, with the keyboard back in its
/// terminal, and leaves the document and the host alone; a card that is not there is waited for.
pub proof fn law_the_active_card_is_taken_over(canvas: Canvas, item: Item<Seq<char>>, gone: u128)
    requires
        canvas.doc.sound(),
        canvas.doc.items.contains(item),
        !canvas.doc.has(gone),
    ensures
        ({
            let next = (Canvas { resume_active: Some(item.id), ..canvas }).then_resume();
            &&& next.active == Some(item.id) && next.resume_active is None
            &&& item.kind matches ItemKind::Terminal { session } ==> next.pending.focus == Some(
                session,
            )
            &&& !(item.kind is Terminal) ==> next.pending == canvas.pending
            &&& next.doc == canvas.doc && next.out == canvas.out
        }),
        ({
            let waits = Canvas { resume_active: Some(gone), ..canvas };
            waits.then_resume() == waits
        }),
        canvas.resume_active is None ==> canvas.then_resume() == canvas,
{
    lemma_card(canvas.doc, item);
}

/// A card for a terminal that this client asked for becomes active, takes the keyboard, comes into
/// view and is sized to it; one that another client asked for does not.
pub proof fn law_a_shell_we_opened_is_ours(
    canvas: Canvas,
    item: Item<Seq<char>>,
    session: u128,
    doc: Doc,
    other: u128,
)
    requires
        runs(item, session),
        other != canvas.me,
    ensures
        ({
            let next = canvas.then_sync(
                CanvasSync::Delta { by: canvas.me, op: Op::Upsert(item) },
                doc,
            );
            &&& next.active == Some(item.id)
            &&& next.pending.focus == Some(session) && next.pending.reveal == Some(item.id)
        }),
        created_for(CanvasSync::Delta { by: other, op: Op::Upsert(item) }, canvas.me) is None,
        canvas.measured && canvas.doc.has(item.id) ==> canvas.then_ours(item.id, session).out
            == canvas.out.push(Effect::Fit(item.id)),
        !canvas.measured ==> canvas.then_ours(item.id, session).fit_items == canvas.fit_items.push(
            item.id,
        ) && canvas.then_ours(item.id, session).out == canvas.out,
{
}

/// A session that appeared is known as the host tells of it, and a terminal is the newest of the
/// shells; one that is gone takes its agent and its place among them with it. Neither touches any
/// other session.
pub proof fn law_sessions_come_and_go(
    shells: ShellState,
    summary: Session<Seq<char>>,
    session: u128,
    other: u128,
)
    requires
        other != summary.id,
        other != session,
    ensures
        ({
            let more = shells.then_opened(summary);
            &&& more.sessions.contains_key(summary.id) && more.sessions[summary.id] == summary
            &&& more.recency.contains(summary.id) <==> (summary.kind is Terminal
                || shells.recency.contains(summary.id))
            &&& summary.kind is Terminal && !shells.recency.contains(summary.id)
                ==> more.recency.last() == summary.id
            &&& shells.recency.is_prefix_of(more.recency)
            &&& more.sessions.contains_key(other) <==> shells.sessions.contains_key(other)
            &&& shells.sessions.contains_key(other) ==> more.sessions[other]
                == shells.sessions[other]
            &&& more.agents == shells.agents
        }),
        ({
            let less = shells.then_closed(session);
            &&& !less.sessions.contains_key(session) && !less.agents.contains_key(session)
            &&& less.recency == shells.recency.filter(|s: u128| s != session)
            &&& less.sessions.contains_key(other) <==> shells.sessions.contains_key(other)
            &&& shells.sessions.contains_key(other) ==> less.sessions[other]
                == shells.sessions[other]
            &&& less.agents.contains_key(other) <==> shells.agents.contains_key(other)
            &&& shells.agents.contains_key(other) ==> less.agents[other] == shells.agents[other]
        }),
{
    lemma_dropped(shells.recency, session);
    let more = shells.then_opened(summary);
    if summary.kind is Terminal && !shells.recency.contains(summary.id) {
        assert(more.recency[shells.recency.len() as int] == summary.id);
    }
    assert(shells.recency =~= more.recency.take(shells.recency.len() as int));
}

proof fn lemma_dropped(all: Seq<u128>, session: u128)
    ensures
        dropped(all, session) == all.filter(|s: u128| s != session),
    decreases all.len(),
{
    reveal(Seq::filter);
    if all.len() > 0 {
        lemma_dropped(all.drop_last(), session);
    }
}

/// The shell that was just used is the newest; the others keep their order behind it.
pub proof fn law_the_shell_just_used_is_the_newest(recency: Seq<u128>, session: u128)
    requires
        recency.no_duplicates(),
    ensures
        recency.contains(session) ==> touched(recency, session) == recency.filter(
            |s: u128| s != session,
        ).push(session),
        !recency.contains(session) ==> touched(recency, session) == recency,
{
    lemma_first_index(recency, session);
    let at = first_index(recency, session);
    if recency.contains(session) {
        let (a, b) = (recency.take(at), recency.skip(at + 1));
        let pick = |s: u128| s != session;
        assert(recency =~= a + seq![session] + b);
        lemma_all_pass(a, session);
        lemma_all_pass(b, session);
        Seq::filter_distributes_over_add(a + seq![session], b, pick);
        Seq::filter_distributes_over_add(a, seq![session], pick);
        reveal(Seq::filter);
        assert(seq![session].filter(pick) =~= Seq::empty()) by {
            assert(seq![session].drop_last().filter(pick) =~= Seq::empty());
        }
        assert(recency.remove(at) =~= a + b);
    }
}

proof fn lemma_all_pass(all: Seq<u128>, session: u128)
    requires
        !all.contains(session),
    ensures
        all.filter(|s: u128| s != session) == all,
    decreases all.len(),
{
    reveal(Seq::filter);
    if all.len() > 0 {
        let init = all.drop_last();
        assert(!init.contains(session)) by {
            if init.contains(session) {
                let i = choose|i: int| 0 <= i < init.len() && init[i] == session;
                assert(all[i] == session);
            }
        }
        assert(all[all.len() - 1] != session);
        lemma_all_pass(init, session);
        assert(init.push(all.last()) =~= all);
    }
}

/// A shell that changed directory is known to be in the new one and in its repository, and is the
/// same shell in every other way; a session that is not alive stays unknown.
pub proof fn law_a_shell_is_where_it_moved(
    shells: ShellState,
    session: u128,
    cwd: Seq<char>,
    repo: Option<Seq<char>>,
)
    ensures
        ({
            let next = shells.then_moved(session, cwd, repo);
            &&& shells.sessions.contains_key(session) ==> {
                &&& next.cwd(session) == Some(cwd) && next.repo(session) == repo
                &&& next.sessions[session].title == shells.sessions[session].title
                &&& next.sessions[session].kind == shells.sessions[session].kind
                &&& next.sessions.dom() == shells.sessions.dom()
            }
            &&& !shells.sessions.contains_key(session) ==> next == shells && next.cwd(session)
                is None && next.repo(session) is None
        }),
{
    assert(shells.sessions.contains_key(session) ==> shells.then_moved(
        session,
        cwd,
        repo,
    ).sessions.dom() =~= shells.sessions.dom());
}

/// A command's end is remembered exactly where it ran long enough and nobody watched, until its card
/// is looked at.
pub proof fn law_a_badge_stays_until_it_is_seen(
    shells: ShellState,
    session: u128,
    done: Ended,
    watched: bool,
)
    requires
        !shells.finished.contains_key(session),
    ensures
        ({
            let next = shells.then_finished(session, done, watched);
            &&& next.finished.contains_key(session) <==> (!watched && done.elapsed
                >= shells.slow_command)
            &&& next.finished.contains_key(session) ==> next.finished[session] == done
            &&& !next.then_seen(session).finished.contains_key(session)
        }),
{
}

/// The canvas of a link starts with the host's terminals in the order they are told, each session as
/// it is told last.
pub proof fn law_a_link_starts_with_its_sessions(all: Seq<Session<Seq<char>>>, i: int)
    requires
        0 <= i < all.len(),
        forall|j: int| i < j < all.len() ==> (#[trigger] all[j]).id != all[i].id,
    ensures
        by_id(all).contains_key(all[i].id) && by_id(all)[all[i].id] == all[i],
        terminal_ids(all) == all.filter(|s: Session<Seq<char>>| s.kind is Terminal).map_values(
            |s: Session<Seq<char>>| s.id,
        ),
    decreases all.len(),
{
    lemma_terminal_ids(all);
    if i < all.len() - 1 {
        assert(all[all.len() - 1].id != all[i].id);
        assert forall|j: int| i < j < all.drop_last().len() implies (
        #[trigger] all.drop_last()[j]).id != all.drop_last()[i].id by {
            assert(all[j].id != all[i].id);
        }
        law_a_link_starts_with_its_sessions(all.drop_last(), i);
    }
}

proof fn lemma_terminal_ids(all: Seq<Session<Seq<char>>>)
    ensures
        terminal_ids(all) == all.filter(|s: Session<Seq<char>>| s.kind is Terminal).map_values(
            |s: Session<Seq<char>>| s.id,
        ),
    decreases all.len(),
{
    reveal(Seq::filter);
    let pick = |s: Session<Seq<char>>| s.kind is Terminal;
    let name = |s: Session<Seq<char>>| s.id;
    if all.len() > 0 {
        lemma_terminal_ids(all.drop_last());
        let init = all.drop_last().filter(pick);
        assert(init.push(all.last()).map_values(name) =~= init.map_values(name).push(
            all.last().id,
        ));
    } else {
        assert(all.filter(pick).map_values(name) =~= Seq::<u128>::empty());
    }
}

/// The canvas of a session that is gone no longer knows it, and the chrome hears how many agents
/// still wait on the human.
pub proof fn law_a_session_that_is_gone_is_forgotten(
    canvas: Canvas,
    session: u128,
    summary: Session<Seq<char>>,
)
    requires
        canvas.doc.items.len() <= usize::MAX,
    ensures
        ({
            let next = canvas.then_session_closed(session);
            &&& next.shells.sessions == canvas.shells.sessions.remove(session)
            &&& next.shells.agents == canvas.shells.agents.remove(session)
            &&& next.doc == canvas.doc
            &&& next.out.len() > 0
            &&& next.out.last() matches Effect::Emit(CanvasEvent::NeedsYou(n)) && n
                == next.doc.items.filter(
                |item: Item<Seq<char>>| blocked_on_you(next, item),
            ).len()
        }),
        ({
            let next = canvas.then_session_opened(summary);
            &&& next.shells.sessions == canvas.shells.sessions.insert(summary.id, summary)
            &&& next.doc == canvas.doc
        }),
{
    let less = Canvas { shells: canvas.shells.then_closed(session), ..canvas }.then_awake();
    law_reconciling_draws_what_is_here(less, session);
    law_the_chrome_counts_who_waits(less.then_reconcile());
    let next = canvas.then_session_closed(session);
    assert(next.doc.items.filter(|item: Item<Seq<char>>| blocked_on_you(next, item))
        =~= less.then_reconcile().doc.items.filter(
        |item: Item<Seq<char>>| blocked_on_you(less.then_reconcile(), item),
    )) by {
        assert((|item: Item<Seq<char>>| blocked_on_you(next, item)) =~= (|item: Item<Seq<char>>|
            blocked_on_you(less.then_reconcile(), item)));
    }
    let more = Canvas { shells: canvas.shells.then_opened(summary), ..canvas };
    law_reconciling_draws_what_is_here(more, session);
}

} // verus!
