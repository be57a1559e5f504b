//! What the host says: the document, the sessions, the agents.
use vstd::prelude::*;

use crate::agent::{
    banner_body, banner_text, body_text, needs_human, waits, wish, Agent, AgentEvent, AgentStatus,
};
use crate::canvas::doc::{
    reading_key, reading_keys, order_key, top_of, CanvasItem, Doc, Item, ItemKind, Op,
};
use crate::canvas::msg::{CanvasEvent, ClientMsg, Effect, TermRequest};
use crate::canvas::shells::{Session, SessionSummary, Shell, ShellState};
use crate::canvas::titles::{banner_of, banner_title, program_banner, titled, Finished};
use crate::canvas::view::{
    waiting, Canvas, CanvasView, ClosedCard, Heading, Pending, ToastKind, POINT_FOR,
};
use crate::list::holds_id;
use crate::order::{order_of, sorted_order};
use crate::text::{copy_of, held};

verus! {

/// What the host says of the document.
#[derive(Debug, PartialEq, Eq)]
pub enum CanvasSync<T> {
    /// All of it.
    Snapshot,
    /// A change, and whose it is.
    Delta { by: u128, op: Op<T> },
    /// Another client looks elsewhere, came or left.
    Presence(u128),
    /// Another client points at a card.
    Pointed { client: u128, name: T, item: u128 },
}

impl DeepView for CanvasSync<String> {
    type V = CanvasSync<Seq<char>>;

    open spec fn deep_view(&self) -> CanvasSync<Seq<char>> {
        match *self {
            CanvasSync::Snapshot => CanvasSync::Snapshot,
            CanvasSync::Delta { by, op } => CanvasSync::Delta { by, op: op.deep_view() },
            CanvasSync::Presence(client) => CanvasSync::Presence(client),
            CanvasSync::Pointed { client, name, item } => CanvasSync::Pointed {
                client,
                name: name@,
                item,
            },
        }
    }
}

/// The closed cards that can still be taken back: not a shell whose session ended on its own.
pub open spec fn still_closed(
    closed: Seq<ClosedCard<Seq<char>>>,
    shells: ShellState,
) -> Seq<ClosedCard<Seq<char>>>
    decreases closed.len(),
{
    if closed.len() == 0 {
        Seq::empty()
    } else if closed.last().session matches Some(s) && !shells.alive(s) {
        still_closed(closed.drop_last(), shells)
    } else {
        still_closed(closed.drop_last(), shells).push(closed.last())
    }
}

/// The live sessions of the terminal cards that are not asleep.
pub open spec fn carded(items: Seq<Item<Seq<char>>>, shells: ShellState) -> Seq<u128>
    decreases items.len(),
{
    if items.len() == 0 {
        Seq::empty()
    } else {
        let rest = carded(items.drop_last(), shells);
        match items.last().kind {
            ItemKind::Terminal { session } => if !items.last().sleeping && shells.alive(session) {
                rest.push(session)
            } else {
                rest
            },
            _ => rest,
        }
    }
}

/// The live sessions kept for the closed cards.
pub open spec fn kept_for(closed: Seq<ClosedCard<Seq<char>>>, shells: ShellState) -> Seq<u128>
    decreases closed.len(),
{
    if closed.len() == 0 {
        Seq::empty()
    } else {
        let rest = kept_for(closed.drop_last(), shells);
        match closed.last().session {
            Some(session) => if shells.alive(session) {
                rest.push(session)
            } else {
                rest
            },
            None => rest,
        }
    }
}

/// A heading some of whose cards are still there.
pub open spec fn heads(heading: Heading<Seq<char>, Seq<u128>>, doc: Doc) -> bool {
    exists|i: int| 0 <= i < heading.items.len() && doc.has(#[trigger] heading.items[i])
}

/// The headings whose block has not lost every card.
pub open spec fn still_heading(headings: Seq<Heading<Seq<char>, Seq<u128>>>, doc: Doc) -> Seq<
    Heading<Seq<char>, Seq<u128>>,
>
    decreases headings.len(),
{
    if headings.len() == 0 {
        Seq::empty()
    } else if heads(headings.last(), doc) {
        still_heading(headings.drop_last(), doc).push(headings.last())
    } else {
        still_heading(headings.drop_last(), doc)
    }
}

impl Canvas {
    /// A live session that is to be drawn: its rows are asked for, unless it is drawn already, and
    /// its card is active where none is.
    pub open spec fn then_attach(self, session: u128) -> Canvas {
        if self.shells.drawn(session) || !self.shells.alive(session) {
            self
        } else {
            let s = self.shells.sessions[session];
            let asked = self.term(
                session,
                TermRequest::Attach { cols: s.cols, rows: s.rows },
            ).term(session, TermRequest::Colors);
            let told = if self.shells.agents.contains_key(session) {
                asked.say(
                    Effect::AgentStatus { session, status: self.shells.agents[session].status },
                )
            } else {
                asked
            };
            Canvas {
                shells: told.shells.then_drawn(session),
                active: if self.active is None {
                    match self.doc.for_session(session) {
                        Some(item) => Some(item.id),
                        None => None,
                    }
                } else {
                    self.active
                },
                ..told
            }
        }
    }

    /// The sessions that are to be drawn, one after the other.
    pub open spec fn then_attach_all(self, want: Seq<u128>) -> Canvas
        decreases want.len(),
    {
        if want.len() == 0 {
            self
        } else {
            self.then_attach_all(want.drop_last()).then_attach(want.last())
        }
    }

    /// The shells among `drawn` that are to be drawn no more.
    pub open spec fn then_detach_all(self, drawn: Seq<Shell<Seq<char>>>, want: Seq<u128>) -> Canvas
        decreases drawn.len(),
    {
        if drawn.len() == 0 {
            self
        } else {
            let next = self.then_detach_all(drawn.drop_last(), want);
            let session = drawn.last().session;
            if want.contains(session) {
                next
            } else {
                let told = if next.shells.alive(session) {
                    next.term(session, TermRequest::Detach)
                } else {
                    next
                };
                Canvas { shells: told.shells.then_undrawn(session), ..told }
            }
        }
    }

    /// The active card held the keyboard and is gone: the topmost becomes active and the canvas
    /// takes the keyboard back on its next frame.
    pub open spec fn then_keep_active(self) -> Canvas {
        if self.active matches Some(id) && !self.doc.has(id) {
            Canvas {
                active: match top_of(self.doc.items) {
                    Some(top) => Some(top.id),
                    None => None,
                },
                pending: Pending { canvas: true, ..self.pending },
                ..self
            }
        } else {
            self
        }
    }

    /// Views for terminal cards whose session is alive, none for those whose card is gone.
    #[verifier::opaque]
    pub open spec fn then_reconcile(self) -> Canvas {
        let first = Canvas { closed: still_closed(self.closed, self.shells), ..self };
        let want = carded(first.doc.items, first.shells) + kept_for(first.closed, first.shells);
        let attached = first.then_attach_all(want);
        let detached = attached.then_detach_all(attached.shells.terminals, want);
        let (screens, out) = detached.screens.then_reconcile(detached.doc.items, detached.out);
        let streamed = Canvas { screens, out, ..detached }.then_keep_active();
        Canvas {
            headings: still_heading(streamed.headings, streamed.doc),
            ..streamed
        }.then_run_targets()
    }

    /// The chrome hears how many agents wait on the human.
    pub open spec fn then_count(self) -> Canvas {
        self.say(
            Effect::Emit(
                CanvasEvent::NeedsYou(waiting(self.doc.items, self.shells.agents).len() as usize),
            ),
        )
    }

    /// The card the canvas this one replaces had active is active again, its keyboard back in it;
    /// not raised: the reader did nothing to the document.
    pub open spec fn then_resume(self) -> Canvas {
        if self.resume_active matches Some(id) && self.doc.has(id) {
            let id = self.resume_active->0;
            Canvas {
                active: Some(id),
                resume_active: None,
                pending: Pending {
                    focus: match self.doc.session_of(id) {
                        Some(session) => Some(session),
                        None => self.pending.focus,
                    },
                    ..self.pending
                },
                ..self
            }
        } else {
            self
        }
    }

    /// A card the host created for us becomes active and focused.
    pub open spec fn then_ours(self, id: u128, session: u128) -> Canvas {
        let next = self.then_fit(id);
        Canvas {
            active: Some(id),
            pending: Pending { focus: Some(session), reveal: Some(id), ..next.pending },
            ..next
        }
    }

    /// The document changed.
    pub open spec fn then_sync(self, sync: CanvasSync<Seq<char>>, doc: Doc) -> Canvas {
        let pointed = match sync {
            CanvasSync::Pointed { client, name, item } => if client != self.me && self.doc.has(
                item,
            ) {
                self.then_toast(ToastKind::Pointed { name, item }, POINT_FOR)
            } else {
                self
            },
            _ => self,
        };
        let changed = Canvas { doc, ..pointed };
        let followed = match sync {
            CanvasSync::Presence(client) => if changed.following == Some(client) {
                changed.then_follow(client)
            } else {
                changed
            },
            _ => changed,
        };
        let resumed = followed.then_reconcile().then_resume();
        match created_for(sync, self.me) {
            Some((id, session)) => resumed.then_ours(id, session),
            None => resumed,
        }
    }

    /// A session appeared.
    pub open spec fn then_session_opened(self, summary: Session<Seq<char>>) -> Canvas {
        Canvas { shells: self.shells.then_opened(summary), ..self }.then_reconcile()
    }

    /// A session is gone.
    pub open spec fn then_session_closed(self, session: u128) -> Canvas {
        Canvas {
            shells: self.shells.then_closed(session),
            ..self
        }.then_awake().then_reconcile().then_count()
    }

    /// The name of a session's card.
    pub open spec fn name_for(self, session: u128) -> Option<Seq<char>> {
        match self.doc.for_session(session) {
            Some(item) => item.name,
            None => None,
        }
    }

    /// A banner when the human is not looking at the app.
    pub open spec fn then_banner(
        self,
        session: u128,
        title: Seq<char>,
        body: Seq<char>,
        looking: bool,
    ) -> Canvas {
        if looking {
            self
        } else {
            self.say(Effect::Banner { session, title, body })
        }
    }

    /// The host observed a coding agent's state in a session.
    pub open spec fn then_agent(self, event: Agent<Seq<char>>, looking: bool) -> Canvas {
        let session = event.session;
        let told = if self.shells.drawn(session) {
            self.say(Effect::AgentStatus { session, status: event.status })
        } else {
            self
        };
        let bannered = if event.status is Absent {
            told
        } else if event.attention {
            told.then_banner(
                session,
                titled(self.name_for(session), wish(event)),
                banner_body(event),
                looking,
            )
        } else if !waits(event) {
            told.say(Effect::Dismiss(session))
        } else {
            told
        };
        let kept = Canvas { shells: bannered.shells.then_agent(event), ..bannered };
        let emitted = if !(event.status is Absent) && event.attention {
            kept.say(Effect::Emit(CanvasEvent::Attention(session)))
        } else {
            kept
        };
        emitted.then_awake().then_count().then_run_targets()
    }

    /// A program in a terminal asked for a notification.
    pub open spec fn then_program(
        self,
        session: u128,
        title: Seq<char>,
        body: Seq<char>,
        looking: bool,
    ) -> Canvas {
        let (said, text) = banner_of(self.name_for(session), title, body);
        self.then_banner(session, said, text, looking).say(
            Effect::Emit(CanvasEvent::Attention(session)),
        )
    }

    /// The human is on the card of a session.
    pub open spec fn watches(self, session: u128) -> bool {
        self.doc.for_session(session) matches Some(item) && self.active == Some(item.id)
    }

    /// A fenced block is typed into the shell it goes to, which comes into view.
    pub open spec fn then_run(self, code: Seq<char>) -> Canvas {
        match self.shells.run_target() {
            Some(session) => self.then_reveal_session(session).say(
                Effect::RunText { session, text: code },
            ),
            None => self,
        }
    }

    /// The cards whose agent waits on the human, in reading order.
    pub open spec fn needs_you(self) -> Seq<(u128, u128)> {
        let found = waiting(self.doc.items, self.shells.agents);
        order_of(reading_keys(found)).map_values(|i: usize| card_session(found[i as int]))
    }

    /// The next of the waiting sessions after the active card's, wrapping; else the first.
    pub open spec fn next_waiting(self) -> Option<u128> {
        let list = self.needs_you();
        if list.len() == 0 {
            None
        } else {
            match index_of_card(list, self.active) {
                Some(i) => Some(list[(i + 1) % (list.len() as int)].1),
                None => Some(list[0].1),
            }
        }
    }

    /// The next terminal whose agent waits on the human comes into view.
    pub open spec fn then_next_attention(self) -> Canvas {
        match self.next_waiting() {
            Some(session) => self.then_reveal_session(session),
            None => self,
        }
    }
}

/// A card, and its session.
pub open spec fn card_session(item: Item<Seq<char>>) -> (u128, u128) {
    (
        item.id,
        match item.kind {
            ItemKind::Terminal { session } => session,
            _ => 0,
        },
    )
}

/// Where the active card stands first in a list.
pub open spec fn index_of_card(list: Seq<(u128, u128)>, active: Option<u128>) -> Option<int> {
    match active {
        Some(id) => {
            let at = card_index(list, id);
            if at < list.len() {
                Some(at)
            } else {
                None
            }
        },
        None => None,
    }
}

/// Where a card stands first in a list: its length where it does not.
pub open spec fn card_index(list: Seq<(u128, u128)>, id: u128) -> int
    decreases list.len(),
{
    if list.len() == 0 {
        0
    } else if list[0].0 == id {
        0
    } else {
        1 + card_index(list.drop_first(), id)
    }
}

/// The card of a terminal the host created for `me`.
pub open spec fn created_for(sync: CanvasSync<Seq<char>>, me: u128) -> Option<(u128, u128)> {
    match sync {
        CanvasSync::Delta { by, op: Op::Upsert(item) } => match item.kind {
            ItemKind::Terminal { session } => if by == me {
                Some((item.id, session))
            } else {
                None
            },
            _ => None,
        },
        _ => None,
    }
}

impl CanvasView {
    /// A live session that is to be drawn.
    fn attach(&mut self, session: u128)
        ensures
            final(self).deep_view() == old(self).deep_view().then_attach(session),
    {
        if self.shells.drawn(session) {
            return;
        }
        let (cols, rows) = match self.shells.session(session) {
            Some(s) => (s.cols, s.rows),
            None => {
                return;
            },
        };
        self.out.term(session, TermRequest::Attach { cols, rows });
        self.out.term(session, TermRequest::Colors);
        let status = match self.shells.agent(session) {
            Some(agent) => Some(agent.status.copy()),
            None => None,
        };
        if let Some(status) = status {
            self.out.push(Effect::AgentStatus { session, status });
        }
        self.shells.draw(session);
        if self.active.is_none() {
            self.active = match self.doc.item_for_session(session) {
                Some(item) => Some(item.id),
                None => None,
            };
        }
    }

    /// The sessions that are to be drawn.
    fn wanted_shells(&self) -> (r: Vec<u128>)
        ensures
            r@ == carded(self.deep_view().doc.items, self.deep_view().shells) + kept_for(
                self.deep_view().closed,
                self.deep_view().shells,
            ),
    {
        let mut out: Vec<u128> = Vec::new();
        let ghost items = self.deep_view().doc.items;
        let ghost shells = self.deep_view().shells;
        let n: usize = self.doc.count();
        let mut i: usize = 0;
        while i < n
            invariant
                i <= n == items.len(),
                items == self.doc.deep_view().items,
                shells == self.shells.deep_view(),
                out@ == carded(items.take(i as int), shells),
            decreases n - i,
        {
            let item = self.doc.item_at(i);
            proof {
                assert(items.take(i + 1).drop_last() == items.take(i as int));
                assert(items.take(i + 1).last() == items[i as int]);
            }
            if let ItemKind::Terminal { session } = &item.kind {
                if !item.sleeping && self.shells.alive(*session) {
                    out.push(*session);
                }
            }
            i += 1;
        }
        assert(items.take(i as int) == items);
        let ghost first = out@;
        let ghost closed = self.deep_view().closed;
        let mut j: usize = 0;
        while j < self.closed.len()
            invariant
                j <= self.closed@.len(),
                closed == self.closed.deep_view(),
                shells == self.shells.deep_view(),
                out@ == first + kept_for(closed.take(j as int), shells),
            decreases self.closed.len() - j,
        {
            proof {
                assert(closed[j as int] == self.closed@[j as int].deep_view());
                assert(closed.take(j + 1).drop_last() == closed.take(j as int));
                assert(closed.take(j + 1).last() == closed[j as int]);
            }
            if let Some(session) = self.closed[j].session {
                if self.shells.alive(session) {
                    out.push(session);
                }
            }
            j += 1;
        }
        assert(closed.take(j as int) == closed);
        out
    }

    /// The closed cards that can still be taken back.
    fn keep_closed(&mut self)
        ensures
            final(self).deep_view() == (Canvas {
                closed: still_closed(old(self).deep_view().closed, old(self).deep_view().shells),
                ..old(self).deep_view()
            }),
    {
        let ghost closed = self.deep_view().closed;
        let ghost shells = self.deep_view().shells;
        let mut kept: Vec<ClosedCard<String>> = Vec::new();
        let mut j: usize = 0;
        assert(kept.deep_view() =~= Seq::<ClosedCard<Seq<char>>>::empty());
        while j < self.closed.len()
            invariant
                j <= self.closed@.len(),
                closed == self.closed.deep_view(),
                shells == self.shells.deep_view(),
                kept.deep_view() == still_closed(closed.take(j as int), shells),
            decreases self.closed.len() - j,
        {
            proof {
                assert(closed[j as int] == self.closed@[j as int].deep_view());
                assert(closed.take(j + 1).drop_last() == closed.take(j as int));
                assert(closed.take(j + 1).last() == closed[j as int]);
            }
            let gone = match self.closed[j].session {
                Some(session) => !self.shells.alive(session),
                None => false,
            };
            if !gone {
                let one = ClosedCard {
                    item: self.closed[j].item.copy(),
                    session: self.closed[j].session,
                    seq: self.closed[j].seq,
                };
                let ghost want = kept.deep_view().push(one.deep_view());
                kept.push(one);
                assert(kept.deep_view() =~= want);
            }
            j += 1;
        }
        assert(closed.take(j as int) == closed);
        self.closed = kept;
    }

    /// Drop the headings whose block has lost every card: an emptied repository must not keep a
    /// label on the canvas.
    fn prune_headings(&mut self)
        ensures
            final(self).deep_view() == (Canvas {
                headings: still_heading(
                    old(self).deep_view().headings,
                    old(self).deep_view().doc,
                ),
                ..old(self).deep_view()
            }),
    {
        let ghost headings = self.deep_view().headings;
        let ghost doc = self.deep_view().doc;
        let mut kept: Vec<Heading<String, Vec<u128>>> = Vec::new();
        let mut j: usize = 0;
        assert(kept.deep_view() =~= Seq::<Heading<Seq<char>, Seq<u128>>>::empty());
        while j < self.headings.len()
            invariant
                j <= self.headings@.len(),
                headings == self.headings.deep_view(),
                doc == self.doc.deep_view(),
                kept.deep_view() == still_heading(headings.take(j as int), doc),
            decreases self.headings.len() - j,
        {
            let heading = &self.headings[j];
            proof {
                assert(headings[j as int] == heading.deep_view());
                assert(headings.take(j + 1).drop_last() == headings.take(j as int));
                assert(headings.take(j + 1).last() == headings[j as int]);
            }
            let mut found = false;
            let mut k: usize = 0;
            while k < heading.items.len() && !found
                invariant
                    k <= heading.items@.len(),
                    doc == self.doc.deep_view(),
                    found ==> heads(heading.deep_view(), doc),
                    !found ==> forall|m: int|
                        0 <= m < k ==> !doc.has(#[trigger] heading.items@[m]),
                decreases heading.items.len() - k,
            {
                if self.doc.has(heading.items[k]) {
                    assert(heading.deep_view().items[k as int] == heading.items@[k as int]);
                    found = true;
                }
                k += 1;
            }
            if found {
                let one = Heading {
                    label: heading.label.clone(),
                    rect: heading.rect,
                    items: copy_ids(&heading.items),
                };
                let ghost want = kept.deep_view().push(one.deep_view());
                kept.push(one);
                assert(kept.deep_view() =~= want);
            } else {
                assert(!heads(heading.deep_view(), doc));
            }
            j += 1;
        }
        assert(headings.take(j as int) == headings);
        self.headings = kept;
    }

    /// Create views for terminal cards whose session is alive; drop views whose card is gone. A
    /// card closed within the wait has no item; a shell among them keeps its view, attached, and
    /// drops out of the stack the moment its session ends on its own.
    pub fn reconcile(&mut self)
        ensures
            final(self).deep_view() == old(self).deep_view().then_reconcile(),
    {
        proof {
            reveal(Canvas::then_reconcile);
        }
        self.keep_closed();
        let want = self.wanted_shells();
        let ghost first = self.deep_view();
        let mut i: usize = 0;
        assert(want@.take(0) =~= Seq::<u128>::empty());
        while i < want.len()
            invariant
                i <= want@.len(),
                self.deep_view() == first.then_attach_all(want@.take(i as int)),
            decreases want.len() - i,
        {
            proof {
                assert(want@.take(i + 1).drop_last() == want@.take(i as int));
                assert(want@.take(i + 1).last() == want@[i as int]);
            }
            self.attach(want[i]);
            i += 1;
        }
        assert(want@.take(i as int) == want@);
        let ghost attached = self.deep_view();
        let ghost drawn = attached.shells.terminals;
        let mut sessions: Vec<u128> = Vec::new();
        let n: usize = self.shells.drawn_count();
        let mut k: usize = 0;
        while k < n
            invariant
                k <= n == drawn.len(),
                drawn == self.shells.deep_view().terminals,
                sessions@.len() == k,
                forall|m: int| 0 <= m < k ==> #[trigger] sessions@[m] == drawn[m].session,
            decreases n - k,
        {
            sessions.push(self.shells.drawn_at(k));
            k += 1;
        }
        let mut j: usize = 0;
        assert(drawn.take(0) =~= Seq::<Shell<Seq<char>>>::empty());
        while j < n
            invariant
                j <= n == drawn.len(),
                sessions@.len() == n,
                forall|m: int| 0 <= m < n ==> #[trigger] sessions@[m] == drawn[m].session,
                self.deep_view() == attached.then_detach_all(drawn.take(j as int), want@),
            decreases n - j,
        {
            let session: u128 = sessions[j];
            proof {
                assert(drawn.take(j + 1).drop_last() == drawn.take(j as int));
                assert(drawn.take(j + 1).last() == drawn[j as int]);
            }
            if !holds_id(&want, session) {
                if self.shells.alive(session) {
                    self.out.term(session, TermRequest::Detach);
                }
                self.shells.undraw(session);
            }
            j += 1;
        }
        assert(drawn.take(j as int) == drawn);
        self.screens.reconcile(&self.doc, &mut self.out);
        self.keep_active();
        self.prune_headings();
        self.update_run_targets();
    }

    /// The active card is gone: another becomes active.
    fn keep_active(&mut self)
        ensures
            final(self).deep_view() == old(self).deep_view().then_keep_active(),
    {
        if let Some(id) = self.active {
            if !self.doc.has(id) {
                self.active = match self.doc.top() {
                    Some(top) => Some(top.id),
                    None => None,
                };
                self.pending.canvas = true;
            }
        }
    }

    /// How many agents are waiting on the human.
    pub fn needs_you_count(&self) -> (r: usize)
        ensures
            r == waiting(self.deep_view().doc.items, self.deep_view().shells.agents).len(),
    {
        self.waiting_cards().len()
    }

    /// The cards whose agent waits on the human, in the document's order.
    fn waiting_cards(&self) -> (r: Vec<CanvasItem>)
        ensures
            r.deep_view() == waiting(
                self.deep_view().doc.items,
                self.deep_view().shells.agents,
            ),
            r@.len() == waiting(self.deep_view().doc.items, self.deep_view().shells.agents).len(),
    {
        let mut out: Vec<CanvasItem> = Vec::new();
        let ghost items = self.deep_view().doc.items;
        let ghost agents = self.deep_view().shells.agents;
        let n: usize = self.doc.count();
        let mut i: usize = 0;
        assert(out.deep_view() =~= Seq::<Item<Seq<char>>>::empty());
        while i < n
            invariant
                i <= n == items.len(),
                items == self.doc.deep_view().items,
                agents == self.shells.deep_view().agents,
                out.deep_view() == waiting(items.take(i as int), agents),
            decreases n - i,
        {
            let item = self.doc.item_at(i);
            proof {
                assert(items.take(i + 1).drop_last() == items.take(i as int));
                assert(items.take(i + 1).last() == items[i as int]);
            }
            if let ItemKind::Terminal { session } = &item.kind {
                if let Some(agent) = self.shells.agent(*session) {
                    if needs_human(agent) {
                        let one = item.copy();
                        let ghost want = out.deep_view().push(one.deep_view());
                        out.push(one);
                        assert(out.deep_view() =~= want);
                    }
                }
            }
            i += 1;
        }
        assert(items.take(i as int) == items);
        out
    }

    /// Tell the chrome the count (it shows a pill while it is non-zero).
    fn count_needs_you(&mut self)
        ensures
            final(self).deep_view() == old(self).deep_view().then_count(),
    {
        let n: usize = self.needs_you_count();
        self.out.push(Effect::Emit(CanvasEvent::NeedsYou(n)));
    }

    /// Sessions whose agent is waiting on the human, with their cards, in reading order (top to
    /// bottom, left to right) so stepping walks the canvas predictably.
    pub fn needs_you(&self) -> (r: Vec<(u128, u128)>)
        ensures
            r@ == self.deep_view().needs_you(),
    {
        let found = self.waiting_cards();
        let ghost all = found.deep_view();
        let mut keys: Vec<i128> = Vec::new();
        let mut i: usize = 0;
        while i < found.len()
            invariant
                i <= found@.len(),
                all == found.deep_view(),
                keys@ == reading_keys(all.take(i as int)),
            decreases found.len() - i,
        {
            keys.push(order_key(found[i].rect));
            proof {
                assert(all[i as int] == found@[i as int].deep_view());
                assert(reading_keys(all.take(i + 1)) =~= reading_keys(all.take(i as int)).push(
                    reading_key(all[i as int].rect) as i128,
                ));
            }
            i += 1;
        }
        assert(all.take(i as int) == all);
        let order = sorted_order(&keys);
        let mut out: Vec<(u128, u128)> = Vec::new();
        let mut j: usize = 0;
        while j < order.len()
            invariant
                j <= order@.len(),
                all == found.deep_view(),
                all.len() == found@.len(),
                forall|k: int| 0 <= k < order@.len() ==> #[trigger] order@[k] < found@.len(),
                out@ == order@.take(j as int).map_values(|i: usize| card_session(all[i as int])),
            decreases order.len() - j,
        {
            let at: usize = order[j];
            let item = &found[at];
            assert(all[at as int] == item.deep_view());
            let session: u128 = match &item.kind {
                ItemKind::Terminal { session } => *session,
                _ => 0,
            };
            out.push((item.id, session));
            assert(order@.take(j + 1).map_values(|i: usize| card_session(all[i as int]))
                =~= order@.take(j as int).map_values(
                |i: usize| card_session(all[i as int]),
            ).push(card_session(all[at as int])));
            j += 1;
        }
        assert(order@.take(j as int) == order@);
        out
    }

    /// Reveal and focus the next terminal whose agent is waiting on the human, cycling from the
    /// active item.
    pub fn next_attention(&mut self)
        ensures
            final(self).deep_view() == old(self).deep_view().then_next_attention(),
    {
        let list = self.needs_you();
        if list.len() == 0 {
            return;
        }
        let mut next: u128 = list[0].1;
        if let Some(active) = self.active {
            let mut i: usize = 0;
            assert(list@.skip(0) == list@);
            while i < list.len() && list[i].0 != active
                invariant
                    i <= list@.len(),
                    card_index(list@, active) == i + card_index(list@.skip(i as int), active),
                decreases list.len() - i,
            {
                proof {
                    assert(list@.skip(i as int)[0] == list@[i as int]);
                    assert(list@.skip(i as int).drop_first() == list@.skip(i + 1));
                }
                i += 1;
            }
            proof {
                if i < list@.len() {
                    assert(list@.skip(i as int)[0] == list@[i as int]);
                }
            }
            if i < list.len() {
                let after: usize = if i + 1 == list.len() {
                    0
                } else {
                    i + 1
                };
                next = list[after].1;
                assert(after == (i + 1) % (list@.len() as int)) by {
                    if i + 1 < list@.len() {
                        vstd::arithmetic::div_mod::lemma_small_mod(
                            (i + 1) as nat,
                            list@.len(),
                        );
                    } else {
                        vstd::arithmetic::div_mod::lemma_mod_self_0(list@.len() as int);
                    }
                }
            }
        }
        self.reveal_session(next);
    }

    /// The card that was active before is active again.
    pub(crate) fn resume(&mut self)
        ensures
            final(self).deep_view() == old(self).deep_view().then_resume(),
    {
        if let Some(id) = self.resume_active {
            if self.doc.has(id) {
                self.resume_active = None;
                self.active = Some(id);
                if let Some(session) = self.doc.session_of(id) {
                    self.pending.focus = Some(session);
                }
            }
        }
    }

    /// Where the canvas this one replaces was: the active card, once the snapshot brings it (a
    /// card gone meanwhile is nothing to activate).
    pub fn resume_at(&mut self, active: Option<u128>)
        ensures
            final(self).deep_view() == (Canvas {
                resume_active: active,
                ..old(self).deep_view()
            }),
    {
        self.resume_active = active;
    }

    /// A session appeared (ours or another client's).
    pub fn session_opened(&mut self, summary: SessionSummary)
        ensures
            final(self).deep_view() == old(self).deep_view().then_session_opened(
                summary.deep_view(),
            ),
    {
        self.shells.opened(summary);
        self.reconcile();
    }

    /// A session is gone.
    pub fn session_closed(&mut self, session: u128)
        ensures
            final(self).deep_view() == old(self).deep_view().then_session_closed(session),
    {
        self.shells.closed(session);
        self.update_awake();
        self.reconcile();
        self.count_needs_you();
    }

    /// A session changed directory.
    pub fn session_moved(&mut self, session: u128, cwd: String, repo: Option<String>)
        ensures
            final(self).deep_view() == (Canvas {
                shells: old(self).deep_view().shells.then_moved(session, cwd@, held(repo)),
                ..old(self).deep_view()
            }),
    {
        self.shells.moved(session, cwd, repo);
    }

    /// The name of a session's card.
    fn name_of(&self, session: u128) -> (r: Option<String>)
        ensures
            held(r) == self.deep_view().name_for(session),
    {
        match self.doc.item_for_session(session) {
            Some(item) => copy_of(&item.name),
            None => None,
        }
    }

    /// The host observed a coding agent's state in a session; `looking` says the human is looking
    /// at the app. With several agents the card's name leads the banner, so it says which.
    pub fn agent_event(&mut self, event: AgentEvent, looking: bool)
        ensures
            final(self).deep_view() == old(self).deep_view().then_agent(event.deep_view(), looking),
    {
        let session: u128 = event.session;
        let absent = match &event.status {
            AgentStatus::Absent => true,
            _ => false,
        };
        let attention = event.attention;
        if self.shells.drawn(session) {
            self.out.push(Effect::AgentStatus { session, status: event.status.copy() });
        }
        if !absent {
            if attention {
                if !looking {
                    let name = self.name_of(session);
                    let what = banner_text(&event);
                    let title = match &name {
                        Some(n) => banner_title(Some(n.as_str()), what.as_str()),
                        None => banner_title(None, what.as_str()),
                    };
                    let body = body_text(&event);
                    self.out.push(Effect::Banner { session, title, body });
                }
            } else if !needs_human(&event) {
                self.out.push(Effect::Dismiss(session));
            }
        }
        self.shells.set_agent(event);
        if !absent && attention {
            self.out.push(Effect::Emit(CanvasEvent::Attention(session)));
        }
        self.update_awake();
        self.count_needs_you();
        self.update_run_targets();
    }

    /// A program in a terminal asked for a desktop notification: the same banner an agent gets
    /// when the human is not looking, and the attention either way.
    pub fn notify_program(&mut self, session: u128, title: &str, body: &str, looking: bool)
        ensures
            final(self).deep_view() == old(self).deep_view().then_program(
                session,
                title@,
                body@,
                looking,
            ),
    {
        if !looking {
            let name = self.name_of(session);
            let (title_text, body_said) = match &name {
                Some(n) => program_banner(Some(n.as_str()), title, body),
                None => program_banner(None, title, body),
            };
            self.out.push(Effect::Banner { session, title: title_text, body: body_said });
        }
        self.out.push(Effect::Emit(CanvasEvent::Attention(session)));
    }

    /// The user activated a notification: it reveals the session, where the answer is typed.
    pub fn notification_response(&mut self, session: u128)
        ensures
            final(self).deep_view() == old(self).deep_view().then_reveal_session(session),
    {
        self.reveal_session(session);
    }

    /// A shell command ended in `session`.
    pub fn command_finished(&mut self, session: u128, done: Finished)
        ensures
            final(self).deep_view() == (Canvas {
                shells: old(self).deep_view().shells.then_finished(
                    session,
                    done.deep_view(),
                    old(self).deep_view().watches(session),
                ),
                ..old(self).deep_view()
            }),
    {
        let watched = match self.doc.item_for_session(session) {
            Some(item) => match self.active {
                Some(id) => id == item.id,
                None => false,
            },
            None => false,
        };
        self.shells.finish(session, done, watched);
    }

    /// A "run" button on a fenced block was pressed: reveal the shell it goes to and type the code
    /// into it.
    pub fn run_in_shell(&mut self, code: String)
        ensures
            final(self).deep_view() == old(self).deep_view().then_run(code@),
    {
        let session: u128 = match self.shells.run_target() {
            Some(session) => session,
            None => {
                return;
            },
        };
        self.reveal_session(session);
        self.out.push(Effect::RunText { session, text: code });
    }

    /// Ask the host to register the hooks, so the agents in its terminals report precisely.
    /// Offered once per run.
    pub fn install_hooks(&mut self)
        ensures
            final(self).deep_view() == (Canvas {
                hooks_offered: true,
                ..old(self).deep_view()
            }).send(ClientMsg::InstallHooks),
    {
        self.hooks_offered = true;
        self.send(ClientMsg::InstallHooks);
    }

    /// The host could not install the hooks: put the offer back so it can be tried again.
    pub fn hooks_offer_failed(&mut self)
        ensures
            final(self).deep_view() == (Canvas {
                hooks_offered: false,
                ..old(self).deep_view()
            }),
    {
        self.hooks_offered = false;
    }

    /// Whether the hooks have already been offered on this canvas.
    pub fn hooks_offered(&self) -> (r: bool)
        ensures
            r == self.deep_view().hooks_offered,
    {
        self.hooks_offered
    }
}

/// A copy of the identities.
pub fn copy_ids(v: &Vec<u128>) -> (r: Vec<u128>)
    ensures
        r@ == v@,
{
    let mut out: Vec<u128> = Vec::new();
    let mut i: usize = 0;
    while i < v.len()
        invariant
            i <= v@.len(),
            out@ == v@.take(i as int),
        decreases v.len() - i,
    {
        out.push(v[i]);
        assert(v@.take(i + 1) == v@.take(i as int).push(v@[i as int]));
        i += 1;
    }
    assert(v@.take(i as int) == v@);
    out
}

} // verus!
