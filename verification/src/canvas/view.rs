//! What the canvas does: its state, and how each event changes it.
use vstd::prelude::*;

use crate::agent::{waits, Agent};
use crate::canvas::actions::Action;
use crate::canvas::doc::{CanvasDoc, CanvasItem, CanvasOp, Doc, Item, ItemKind, Looking, Op, Rect};
use crate::canvas::msg::{
    Aim, CaptureTarget, ClientMsg, Doing, Done, Effect, Outbox, PaletteRun, TermRequest,
};
use crate::canvas::screens::{ScreenState, Screens, WindowInfo};
use crate::canvas::shells::{
    by_id, terminal_ids, Session, SessionSummary, ShellState, Shells, SLOW_COMMAND,
};
use crate::canvas::titles::{file_title, file_title_of, note_title, note_title_of};
use crate::list::holds_id;

use crate::table::Table;
use crate::text::{decimal, held, push_decimal};
use crate::time::Duration;

pub mod cards;
pub mod live;

verus! {

/// How long another client's pointing stays on offer before it goes by itself, in milliseconds.
pub const POINT_FOR: u64 = 8_000;

/// How long a closed card can be taken back before a shell's session is closed for good, in
/// milliseconds.
pub const UNDO_CLOSE: u64 = 5_000;

/// What a toast is.
#[derive(Debug, PartialEq, Eq)]
pub enum ToastKind<T> {
    /// Another client's pointing: a button that goes to the card.
    Pointed { name: T, item: u128 },
    /// A word to this client alone ("nobody else is here").
    Said(T),
    /// A card just closed: a button that takes it back.
    Closed { seq: u64, title: T },
}

/// The toast at the top of the canvas.
#[derive(Debug, PartialEq, Eq)]
pub struct Toast<T> {
    /// Tells a stale dismiss timer from the current toast's.
    pub seq: u64,
    pub what: ToastKind<T>,
}

/// A card taken off the canvas, until the wait passes or it is put back as it was. A live shell's
/// session runs on through the wait, so its rows come back untouched.
#[derive(Debug, PartialEq, Eq)]
pub struct ClosedCard<T> {
    /// The item, to put back where it was.
    pub item: Item<T>,
    /// The session kept alive for the wait, for a live shell.
    pub session: Option<u128>,
    /// Which closing, for the timer and the toast.
    pub seq: u64,
}

/// A repository's heading over its block, and the cards in it.
#[derive(Debug, PartialEq, Eq)]
pub struct Heading<T, I> {
    pub label: T,
    pub rect: Rect,
    pub items: I,
}

/// What the next frame is to do once everything is drawn.
#[derive(Debug, PartialEq, Eq)]
pub struct Pending<T> {
    /// A terminal to focus.
    pub focus: Option<u128>,
    /// A note to put the caret in.
    pub note: Option<u128>,
    /// Focus the picker.
    pub picker: bool,
    /// Focus the canvas itself.
    pub canvas: bool,
    /// Focus the palette's field.
    pub palette: bool,
    /// Focus the name field.
    pub rename: bool,
    /// A shell to open the find bar of, on a needle.
    pub find: Option<(u128, T)>,
    /// A file card to open the find bar of, on a needle.
    pub find_file: Option<(u128, T)>,
    /// Bring this card into view.
    pub reveal: Option<u128>,
    /// Fit every card into the viewport.
    pub fit: bool,
}

/// Who has the keyboard.
#[derive(Clone, Copy, PartialEq, Eq, Structural, Debug)]
pub enum Keeper {
    Canvas,
    Element(u64),
}

/// The field naming a card, open in its title bar.
#[derive(Clone, Copy, PartialEq, Eq, Structural, Debug)]
pub struct Rename {
    pub id: u128,
    /// Who had the keyboard before the field: it goes back there.
    pub return_to: Option<u64>,
}

/// A find in every card.
#[derive(Debug)]
pub struct Finding<T, H> {
    /// What is sought, while its palette is up.
    pub needle: Option<T>,
    /// How often each card holds it, and what choosing its line does.
    pub hits: H,
    /// What was sought last: the next find starts from it when no card offers its own.
    pub last: T,
}

/// How often a card holds what is sought, and what choosing its line does.
#[derive(Debug, PartialEq, Eq)]
pub struct Hit<T> {
    pub total: u32,
    pub run: PaletteRun<T>,
}

impl DeepView for ToastKind<String> {
    type V = ToastKind<Seq<char>>;

    open spec fn deep_view(&self) -> ToastKind<Seq<char>> {
        match *self {
            ToastKind::Pointed { name, item } => ToastKind::Pointed { name: name@, item },
            ToastKind::Said(text) => ToastKind::Said(text@),
            ToastKind::Closed { seq, title } => ToastKind::Closed { seq, title: title@ },
        }
    }
}

impl DeepView for Toast<String> {
    type V = Toast<Seq<char>>;

    open spec fn deep_view(&self) -> Toast<Seq<char>> {
        Toast { seq: self.seq, what: self.what.deep_view() }
    }
}

impl DeepView for ClosedCard<String> {
    type V = ClosedCard<Seq<char>>;

    open spec fn deep_view(&self) -> ClosedCard<Seq<char>> {
        ClosedCard { item: self.item.deep_view(), session: self.session, seq: self.seq }
    }
}

impl DeepView for Heading<String, Vec<u128>> {
    type V = Heading<Seq<char>, Seq<u128>>;

    open spec fn deep_view(&self) -> Heading<Seq<char>, Seq<u128>> {
        Heading { label: self.label@, rect: self.rect, items: self.items@ }
    }
}

/// What a pending find says.
pub open spec fn sought(o: Option<(u128, String)>) -> Option<(u128, Seq<char>)> {
    match o {
        Some((id, needle)) => Some((id, needle@)),
        None => None,
    }
}

impl DeepView for Pending<String> {
    type V = Pending<Seq<char>>;

    open spec fn deep_view(&self) -> Pending<Seq<char>> {
        Pending {
            focus: self.focus,
            note: self.note,
            picker: self.picker,
            canvas: self.canvas,
            palette: self.palette,
            rename: self.rename,
            find: sought(self.find),
            find_file: sought(self.find_file),
            reveal: self.reveal,
            fit: self.fit,
        }
    }
}

impl DeepView for Hit<String> {
    type V = Hit<Seq<char>>;

    open spec fn deep_view(&self) -> Hit<Seq<char>> {
        Hit { total: self.total, run: self.run.deep_view() }
    }
}

impl DeepView for Finding<String, Table<Hit<String>>> {
    type V = Finding<Seq<char>, Map<u128, Hit<Seq<char>>>>;

    open spec fn deep_view(&self) -> Finding<Seq<char>, Map<u128, Hit<Seq<char>>>> {
        Finding { needle: held(self.needle), hits: self.hits.deep_view(), last: self.last@ }
    }
}

/// The plane.
#[derive(Debug)]
pub struct CanvasView {
    me: u128,
    doc: CanvasDoc,
    shells: Shells,
    screens: Screens,
    /// The hooks have been offered once; the offer comes back only if the host reports it failed.
    hooks_offered: bool,
    /// The note cards that have an editor.
    notes: Vec<u128>,
    /// The file cards that have a view.
    files: Vec<u128>,
    /// The line a file card opened at, for a view not made yet.
    file_focus: Table<u32>,
    /// The paths the host was last asked to watch for the file cards, sorted.
    watched: Vec<String>,
    picker: bool,
    /// A listing is in flight for the picker.
    picker_wanted: bool,
    palette: bool,
    /// Where the keyboard was when the palette opened; it goes back there when it closes.
    palette_return: Option<u64>,
    /// What the palette chose, dispatched on the next frame once the focus is back.
    palette_action: Option<Action>,
    /// The next listing adds its first display straight away.
    display_wanted: bool,
    show_stats: bool,
    find: Finding<String, Table<Hit<String>>>,
    pending: Pending<String>,
    rename: Option<Rename>,
    /// Where the keyboard goes once the name field closed.
    rename_return: Option<Keeper>,
    /// A frame has measured the viewport.
    measured: bool,
    /// Cards the host placed for us before a frame measured the viewport.
    fit_items: Vec<u128>,
    /// The client whose viewport the camera keeps up with.
    following: Option<u128>,
    /// The card the canvas this one replaces had active, made active again once it is here.
    resume_active: Option<u128>,
    toast: Option<Toast<String>>,
    /// The number of the last toast shown; it never goes back.
    toast_seq: u64,
    /// Cards closed within the wait, oldest first.
    closed: Vec<ClosedCard<String>>,
    closed_seq: u64,
    headings: Vec<Heading<String, Vec<u128>>>,
    active: Option<u128>,
    out: Outbox,
}

/// The plane, in the model.
pub struct Canvas {
    pub me: u128,
    pub doc: Doc,
    pub shells: ShellState,
    pub screens: ScreenState,
    pub hooks_offered: bool,
    pub notes: Seq<u128>,
    pub files: Seq<u128>,
    pub file_focus: Map<u128, u32>,
    pub watched: Seq<Seq<char>>,
    pub picker: bool,
    pub picker_wanted: bool,
    pub palette: bool,
    pub palette_return: Option<u64>,
    pub palette_action: Option<Action>,
    pub display_wanted: bool,
    pub show_stats: bool,
    pub find: Finding<Seq<char>, Map<u128, Hit<Seq<char>>>>,
    pub pending: Pending<Seq<char>>,
    pub rename: Option<Rename>,
    pub rename_return: Option<Keeper>,
    pub measured: bool,
    pub fit_items: Seq<u128>,
    pub following: Option<u128>,
    pub resume_active: Option<u128>,
    pub toast: Option<Toast<Seq<char>>>,
    pub toast_seq: u64,
    pub closed: Seq<ClosedCard<Seq<char>>>,
    pub closed_seq: u64,
    pub headings: Seq<Heading<Seq<char>, Seq<u128>>>,
    pub active: Option<u128>,
    pub out: Seq<Done>,
}

impl DeepView for CanvasView {
    type V = Canvas;

    closed spec fn deep_view(&self) -> Canvas {
        Canvas {
            me: self.me,
            doc: self.doc.deep_view(),
            shells: self.shells.deep_view(),
            screens: self.screens.deep_view(),
            hooks_offered: self.hooks_offered,
            notes: self.notes@,
            files: self.files@,
            file_focus: self.file_focus.deep_view(),
            watched: self.watched.deep_view(),
            picker: self.picker,
            picker_wanted: self.picker_wanted,
            palette: self.palette,
            palette_return: self.palette_return,
            palette_action: self.palette_action,
            display_wanted: self.display_wanted,
            show_stats: self.show_stats,
            find: self.find.deep_view(),
            pending: self.pending.deep_view(),
            rename: self.rename,
            rename_return: self.rename_return,
            measured: self.measured,
            fit_items: self.fit_items@,
            following: self.following,
            resume_active: self.resume_active,
            toast: self.toast.deep_view(),
            toast_seq: self.toast_seq,
            closed: self.closed.deep_view(),
            closed_seq: self.closed_seq,
            headings: self.headings.deep_view(),
            active: self.active,
            out: self.out.deep_view(),
        }
    }
}

/// The number after `n`, the first after the last.
pub open spec fn after_seq(n: u64) -> u64 {
    if n == u64::MAX {
        0
    } else {
        (n + 1) as u64
    }
}

/// Nothing is pending.
pub open spec fn nothing_pending() -> Pending<Seq<char>> {
    Pending {
        focus: None,
        note: None,
        picker: false,
        canvas: false,
        palette: false,
        rename: false,
        find: None,
        find_file: None,
        reveal: None,
        fit: false,
    }
}

impl Canvas {
    /// A canvas for one host link.
    pub open spec fn fresh(me: u128, sessions: Seq<Session<Seq<char>>>) -> Canvas {
        Canvas {
            me,
            doc: Doc { items: Seq::empty(), lookers: Seq::empty() },
            shells: ShellState {
                terminals: Seq::empty(),
                sessions: by_id(sessions),
                agents: Map::empty(),
                recency: terminal_ids(sessions),
                finished: Map::empty(),
                slow_command: (SLOW_COMMAND * 1_000_000_000) as nat,
                awake: false,
            },
            screens: ScreenState::blank(),
            hooks_offered: false,
            notes: Seq::empty(),
            files: Seq::empty(),
            file_focus: Map::empty(),
            watched: Seq::empty(),
            picker: false,
            picker_wanted: false,
            palette: false,
            palette_return: None,
            palette_action: None,
            display_wanted: false,
            show_stats: false,
            find: Finding { needle: None, hits: Map::empty(), last: Seq::empty() },
            pending: nothing_pending(),
            rename: None,
            rename_return: None,
            measured: false,
            fit_items: Seq::empty(),
            following: None,
            resume_active: None,
            toast: None,
            toast_seq: 0,
            closed: Seq::empty(),
            closed_seq: 0,
            headings: Seq::empty(),
            active: None,
            out: Seq::empty(),
        }
    }

    /// One thing more to be done.
    pub open spec fn say(self, one: Done) -> Canvas {
        Canvas { out: self.out.push(one), ..self }
    }

    /// A message to the host.
    pub open spec fn send(self, msg: ClientMsg<Seq<char>, Seq<Seq<char>>>) -> Canvas {
        self.say(Effect::Send(msg))
    }

    /// A request on a session.
    pub open spec fn term(self, session: u128, req: TermRequest<Seq<char>>) -> Canvas {
        self.send(ClientMsg::Term { session, req })
    }

    /// A change, applied here first and proposed to the host.
    pub open spec fn propose(self, op: Op<Seq<char>>) -> Canvas {
        Canvas { doc: self.doc.after(op), ..self }.send(ClientMsg::Canvas(op))
    }

    /// What a card's title bar says without a name.
    pub open spec fn derived_title(self, item: Item<Seq<char>>) -> Seq<char> {
        match item.kind {
            ItemKind::Terminal { session } => self.shells.title(session),
            ItemKind::Window { window } => if self.screens.titles.contains_key(item.id) {
                self.screens.titles[item.id]
            } else {
                "window "@ + decimal(window as nat)
            },
            ItemKind::Display { display } => "display "@ + decimal(display as nat),
            ItemKind::Note { text } => note_title_of(text),
            ItemKind::File { path } => file_title_of(path),
        }
    }

    /// What a card's title bar says.
    pub open spec fn card_title(self, item: Item<Seq<char>>) -> Seq<char> {
        match item.name {
            Some(name) => name,
            None => self.derived_title(item),
        }
    }

    /// A card takes a click or a key: it is active, raised over the others, its shell the one last
    /// used, and its badge looked at.
    pub open spec fn then_activate(self, id: u128) -> Canvas {
        let first = match self.doc.session_of(id) {
            Some(session) => Canvas {
                shells: self.shells.then_touched(session).then_seen(session),
                active: Some(id),
                ..self
            },
            None => Canvas { active: Some(id), ..self },
        };
        if self.doc.is_top(id) {
            first
        } else {
            first.propose(Op::Raise(id))
        }
    }

    /// A card is active and comes into view.
    pub open spec fn then_reveal_item(self, id: u128) -> Canvas {
        let next = self.then_activate(id);
        Canvas { pending: Pending { reveal: Some(id), ..next.pending }, ..next }
    }

    /// A session's terminal is active, comes into view and takes the keyboard.
    pub open spec fn then_reveal_session(self, session: u128) -> Canvas {
        match self.doc.for_session(session) {
            Some(item) => {
                let next = self.then_reveal_item(item.id);
                Canvas { pending: Pending { focus: Some(session), ..next.pending }, ..next }
            },
            None => self,
        }
    }

    /// A card is active and comes into view; a terminal takes the keyboard too.
    pub open spec fn then_go_to(self, id: u128) -> Canvas {
        match self.doc.session_of(id) {
            Some(session) => self.then_reveal_session(session),
            None => self.then_reveal_item(id),
        }
    }

    /// A toast is shown for so long; a newer one replaces it and restarts the clock.
    pub open spec fn then_toast(self, what: ToastKind<Seq<char>>, millis: u64) -> Canvas {
        let seq = after_seq(self.toast_seq);
        Canvas { toast: Some(Toast { seq, what }), toast_seq: seq, ..self }.say(
            Effect::ToastTimer { seq, millis },
        )
    }

    /// A toast's time is up: it goes, unless it was replaced.
    pub open spec fn then_toast_over(self, seq: u64) -> Canvas {
        if self.toast matches Some(t) && t.seq == seq {
            Canvas { toast: None, ..self }
        } else {
            self
        }
    }

    /// The notes hear whether there is a shell to run a fenced block in.
    pub open spec fn then_run_targets(self) -> Canvas {
        self.say(Effect::RunTargets(self.shells.run_target() is Some))
    }

    /// The device is held awake while any agent works.
    pub open spec fn then_awake(self) -> Canvas {
        let working = self.shells.working();
        let next = Canvas { shells: ShellState { awake: working, ..self.shells }, ..self };
        if self.shells.awake == working {
            next
        } else {
            next.say(Effect::Awake(working))
        }
    }

    /// The camera keeps up with another client; one no longer looking anywhere is nobody to
    /// follow.
    pub open spec fn then_follow(self, client: u128) -> Canvas {
        match self.doc.looker(client) {
            Some(_) => Canvas { following: Some(client), ..self }.say(
                Effect::Fly(Aim::Looker(client)),
            ),
            None => Canvas { following: None, ..self },
        }
    }

    /// A card the host just placed for us is sized to this viewport, once it is measured.
    pub open spec fn then_fit(self, id: u128) -> Canvas {
        if !self.measured {
            Canvas { fit_items: self.fit_items.push(id), ..self }
        } else if self.doc.has(id) {
            self.say(Effect::Fit(id))
        } else {
            self
        }
    }
}

/// The cards of terminals whose agent waits on the human, in the document's order.
pub open spec fn waiting(
    items: Seq<Item<Seq<char>>>,
    agents: Map<u128, Agent<Seq<char>>>,
) -> Seq<Item<Seq<char>>>
    decreases items.len(),
{
    if items.len() == 0 {
        Seq::empty()
    } else if is_waiting(items.last(), agents) {
        waiting(items.drop_last(), agents).push(items.last())
    } else {
        waiting(items.drop_last(), agents)
    }
}

/// The card is a terminal whose agent waits on the human.
pub open spec fn is_waiting(
    item: Item<Seq<char>>,
    agents: Map<u128, Agent<Seq<char>>>,
) -> bool {
    item.kind matches ItemKind::Terminal { session } && agents.contains_key(session) && waits(
        agents[session],
    )
}

impl CanvasView {
    /// A canvas for one host link.
    pub fn new(me: u128, sessions: Vec<SessionSummary>) -> (r: CanvasView)
        ensures
            r.deep_view() == Canvas::fresh(me, sessions.deep_view()),
    {
        let r = CanvasView {
            me,
            doc: CanvasDoc::new(Vec::new(), Vec::new()),
            shells: Shells::new(sessions),
            screens: Screens::new(),
            hooks_offered: false,
            notes: Vec::new(),
            files: Vec::new(),
            file_focus: Table::new(),
            watched: Vec::new(),
            picker: false,
            picker_wanted: false,
            palette: false,
            palette_return: None,
            palette_action: None,
            display_wanted: false,
            show_stats: false,
            find: Finding { needle: None, hits: Table::new(), last: String::new() },
            pending: Pending {
                focus: None,
                note: None,
                picker: false,
                canvas: false,
                palette: false,
                rename: false,
                find: None,
                find_file: None,
                reveal: None,
                fit: false,
            },
            rename: None,
            rename_return: None,
            measured: false,
            fit_items: Vec::new(),
            following: None,
            resume_active: None,
            toast: None,
            toast_seq: 0,
            closed: Vec::new(),
            closed_seq: 0,
            headings: Vec::new(),
            active: None,
            out: Outbox::new(),
        };
        proof {
            let v = r.deep_view();
            assert(v.doc.items =~= Seq::<Item<Seq<char>>>::empty());
            assert(v.doc.lookers =~= Seq::<Looking<Seq<char>>>::empty());
            assert(v.watched =~= Seq::<Seq<char>>::empty());
            assert(v.closed =~= Seq::<ClosedCard<Seq<char>>>::empty());
            assert(v.headings =~= Seq::<Heading<Seq<char>, Seq<u128>>>::empty());
            assert(v.find.last =~= Seq::<char>::empty());
        }
        r
    }

    /// What is to be done on the canvas's behalf, in order; it is handed out once.
    pub fn take_effects(&mut self) -> (r: Vec<Doing>)
        ensures
            r.deep_view() == old(self).deep_view().out,
            final(self).deep_view() == (Canvas { out: Seq::empty(), ..old(self).deep_view() }),
    {
        self.out.take()
    }

    /// The item that last took a click or a key.
    pub fn active_item(&self) -> (r: Option<u128>)
        ensures
            r == self.deep_view().active,
    {
        self.active
    }

    /// This client's identity on the wire.
    pub fn me(&self) -> (r: u128)
        ensures
            r == self.deep_view().me,
    {
        self.me
    }

    /// Number of items.
    pub fn len(&self) -> (r: usize)
        ensures
            r == self.deep_view().doc.items.len(),
    {
        self.doc.count()
    }

    /// True when nothing is on the canvas.
    pub fn is_empty(&self) -> (r: bool)
        ensures
            r == (self.deep_view().doc.items.len() == 0),
    {
        self.doc.count() == 0
    }

    /// The document.
    pub fn doc(&self) -> (r: &CanvasDoc)
        ensures
            r.deep_view() == self.deep_view().doc,
    {
        &self.doc
    }

    /// The shells.
    pub fn shells(&self) -> (r: &Shells)
        ensures
            r.deep_view() == self.deep_view().shells,
    {
        &self.shells
    }

    /// The streams.
    pub fn screens(&self) -> (r: &Screens)
        ensures
            r.deep_view() == self.deep_view().screens,
    {
        &self.screens
    }

    /// Every item, bottom to top.
    pub fn items(&self) -> (r: Vec<u128>)
        ensures
            r@ == crate::canvas::doc::stacked_ids(self.deep_view().doc.items),
    {
        self.doc.by_z()
    }

    /// A message to the host.
    pub(crate) fn send(&mut self, msg: ClientMsg<String, Vec<String>>)
        ensures
            final(self).deep_view() == old(self).deep_view().send(msg.deep_view()),
    {
        self.out.send(msg);
    }

    /// A change, applied here first and proposed to the host.
    pub(crate) fn propose(&mut self, op: CanvasOp)
        ensures
            final(self).deep_view() == old(self).deep_view().propose(op.deep_view()),
    {
        self.doc.apply_op(op.copy());
        self.out.send(ClientMsg::Canvas(op));
    }

    /// What a card's title bar says without a name: the shell's title, the window's, "display N",
    /// a note's first line, a file's name and directory.
    pub fn derived_title(&self, item: &CanvasItem) -> (r: String)
        ensures
            r@ == self.deep_view().derived_title(item.deep_view()),
    {
        match &item.kind {
            ItemKind::Terminal { session } => self.shells.title(*session),
            ItemKind::Window { window } => match self.screens.title(item.id) {
                Some(title) => title.clone(),
                None => {
                    let mut out = "window ".to_owned();
                    push_decimal(&mut out, *window as u128);
                    out
                },
            },
            ItemKind::Display { display } => {
                let mut out = "display ".to_owned();
                push_decimal(&mut out, *display as u128);
                out
            },
            ItemKind::Note { text } => note_title(text.as_str()),
            ItemKind::File { path } => file_title(path.as_str()),
        }
    }

    /// What a card's title bar says: the name the human gave it, else the derived title.
    pub fn card_title(&self, item: &CanvasItem) -> (r: String)
        ensures
            r@ == self.deep_view().card_title(item.deep_view()),
    {
        match &item.name {
            Some(name) => name.clone(),
            None => self.derived_title(item),
        }
    }

    /// A session's card was looked at.
    pub(crate) fn see(&mut self, session: u128)
        ensures
            final(self).deep_view() == (Canvas {
                shells: old(self).deep_view().shells.then_seen(session),
                ..old(self).deep_view()
            }),
    {
        self.shells.seen(session);
    }

    /// Show `what` for so many milliseconds: a newer toast replaces it and restarts the clock.
    pub(crate) fn show_toast_for(&mut self, what: ToastKind<String>, millis: u64)
        ensures
            final(self).deep_view() == old(self).deep_view().then_toast(what.deep_view(), millis),
    {
        let seq: u64 = if self.toast_seq == u64::MAX {
            0
        } else {
            self.toast_seq + 1
        };
        self.toast_seq = seq;
        self.toast = Some(Toast { seq, what });
        self.out.push(Effect::ToastTimer { seq, millis });
    }

    /// A toast's time is up.
    pub fn toast_over(&mut self, seq: u64)
        ensures
            final(self).deep_view() == old(self).deep_view().then_toast_over(seq),
    {
        let over = match &self.toast {
            Some(t) => t.seq == seq,
            None => false,
        };
        if over {
            self.toast = None;
        }
    }

    /// Tell every note whether there is a shell to run a fenced block in, so it draws its button
    /// only when a click on it would go somewhere.
    pub(crate) fn update_run_targets(&mut self)
        ensures
            final(self).deep_view() == old(self).deep_view().then_run_targets(),
    {
        let can = self.shells.run_target().is_some();
        self.out.push(Effect::RunTargets(can));
    }

    /// Hold the device awake while any agent works; let go when none does.
    pub(crate) fn update_awake(&mut self)
        ensures
            final(self).deep_view() == old(self).deep_view().then_awake(),
    {
        if let Some(on) = self.shells.update_awake() {
            self.out.push(Effect::Awake(on));
        }
    }

    /// Keep up with `client`: fly to where they look now and again on every move they report.
    pub fn follow(&mut self, client: u128)
        ensures
            final(self).deep_view() == old(self).deep_view().then_follow(client),
    {
        if self.doc.looker(client).is_none() {
            self.following = None;
            return;
        }
        self.following = Some(client);
        self.out.push(Effect::Fly(Aim::Looker(client)));
    }

    /// Size a card the host just placed for us to this viewport: a phone gets a phone-sized
    /// terminal. The first shell arrives with the attach, often before the first frame, and waits
    /// for it.
    pub(crate) fn fit_to_viewport(&mut self, id: u128)
        ensures
            final(self).deep_view() == old(self).deep_view().then_fit(id),
    {
        if !self.measured {
            self.fit_items.push(id);
            return;
        }
        if self.doc.has(id) {
            self.out.push(Effect::Fit(id));
        }
    }

    /// One thing more to be done.
    pub(crate) fn say(&mut self, one: Doing)
        ensures
            final(self).deep_view() == old(self).deep_view().say(one.deep_view()),
    {
        self.out.push(one);
    }

    /// A change applied here alone, while it is still under the hand.
    pub(crate) fn apply_here(&mut self, op: CanvasOp)
        ensures
            final(self).deep_view() == (Canvas {
                doc: old(self).deep_view().doc.after(op.deep_view()),
                ..old(self).deep_view()
            }),
    {
        self.doc.apply_op(op);
    }

    /// The canvas itself takes the keyboard on the next frame.
    pub(crate) fn pend_canvas(&mut self)
        ensures
            final(self).deep_view() == (Canvas {
                pending: Pending { canvas: true, ..old(self).deep_view().pending },
                ..old(self).deep_view()
            }),
    {
        self.pending.canvas = true;
    }

    /// Another document.
    pub(crate) fn set_doc(&mut self, doc: CanvasDoc)
        ensures
            final(self).deep_view() == (Canvas { doc: doc.deep_view(), ..old(self).deep_view() }),
    {
        self.doc = doc;
    }

    /// Another active card.
    pub(crate) fn set_active(&mut self, active: Option<u128>)
        ensures
            final(self).deep_view() == (Canvas { active, ..old(self).deep_view() }),
    {
        self.active = active;
    }

    /// The next frame gives a terminal the keyboard.
    pub(crate) fn pend_focus(&mut self, session: u128)
        ensures
            final(self).deep_view() == (Canvas {
                pending: Pending { focus: Some(session), ..old(self).deep_view().pending },
                ..old(self).deep_view()
            }),
    {
        self.pending.focus = Some(session);
    }

    /// The next frame brings a card into view.
    pub(crate) fn pend_reveal(&mut self, id: u128)
        ensures
            final(self).deep_view() == (Canvas {
                pending: Pending { reveal: Some(id), ..old(self).deep_view().pending },
                ..old(self).deep_view()
            }),
    {
        self.pending.reveal = Some(id);
    }

    /// A session was just activated.
    pub(crate) fn touch(&mut self, session: u128)
        ensures
            final(self).deep_view() == (Canvas {
                shells: old(self).deep_view().shells.then_touched(session),
                ..old(self).deep_view()
            }),
    {
        self.shells.touch(session);
    }

    /// The client whose viewport the camera keeps up with.
    pub fn following(&self) -> (r: Option<u128>)
        ensures
            r == self.deep_view().following,
    {
        self.following
    }

    /// The file cards that have a view.
    pub fn file_cards(&self) -> (r: &Vec<u128>)
        ensures
            r@ == self.deep_view().files,
    {
        &self.files
    }

    /// Whether a file card has a view.
    pub fn has_file(&self, id: u128) -> (r: bool)
        ensures
            r == self.deep_view().files.contains(id),
    {
        holds_id(&self.files, id)
    }

    /// The line a file card is to land on once it has a view.
    pub(crate) fn set_file_focus(&mut self, id: u128, line: u32)
        ensures
            final(self).deep_view() == (Canvas {
                file_focus: old(self).deep_view().file_focus.insert(id, line),
                ..old(self).deep_view()
            }),
    {
        self.file_focus.put(id, line);
    }

    /// What a find in every card seeks, while its palette is up.
    pub fn needle(&self) -> (r: Option<&String>)
        ensures
            match r {
                Some(n) => self.deep_view().find.needle == Some(n@),
                None => self.deep_view().find.needle is None,
            },
    {
        match &self.find.needle {
            Some(n) => Some(n),
            None => None,
        }
    }

    /// What was sought last.
    pub fn last_find(&self) -> (r: &String)
        ensures
            r@ == self.deep_view().find.last,
    {
        &self.find.last
    }

    /// How often a card holds what is sought.
    pub fn hit(&self, id: u128) -> (r: Option<&Hit<String>>)
        ensures
            match r {
                Some(h) => self.deep_view().find.hits.contains_key(id)
                    && self.deep_view().find.hits[id] == h.deep_view(),
                None => !self.deep_view().find.hits.contains_key(id),
            },
    {
        self.find.hits.get(id)
    }

    /// Something else is sought, and no card is known to hold it.
    pub(crate) fn set_needle(&mut self, needle: Option<String>)
        ensures
            final(self).deep_view() == (Canvas {
                find: Finding {
                    needle: held(needle),
                    hits: Map::empty(),
                    ..old(self).deep_view().find
                },
                ..old(self).deep_view()
            }),
    {
        self.find.needle = needle;
        self.find.hits = Table::new();
    }

    /// What was sought last.
    pub(crate) fn set_last_find(&mut self, last: String)
        ensures
            final(self).deep_view() == (Canvas {
                find: Finding { last: last@, ..old(self).deep_view().find },
                ..old(self).deep_view()
            }),
    {
        self.find.last = last;
    }

    /// How often a card holds what is sought, and what choosing its line does.
    pub(crate) fn put_hit(&mut self, id: u128, hit: Hit<String>)
        ensures
            final(self).deep_view() == (Canvas {
                find: Finding {
                    hits: old(self).deep_view().find.hits.insert(id, hit.deep_view()),
                    ..old(self).deep_view().find
                },
                ..old(self).deep_view()
            }),
    {
        self.find.hits.put(id, hit);
    }

    /// Whether the palette is up.
    pub fn palette_open(&self) -> (r: bool)
        ensures
            r == self.deep_view().palette,
    {
        self.palette
    }

    /// The palette goes up: it takes the keyboard, which goes back to `focused` when it closes.
    pub(crate) fn show_palette(&mut self, focused: Option<u64>)
        ensures
            final(self).deep_view() == old(self).deep_view().then_show_palette(focused),
    {
        self.palette_return = focused;
        self.pending.palette = true;
        self.palette = true;
    }

    /// The palette closes.
    pub(crate) fn close_palette(&mut self)
        ensures
            final(self).deep_view() == (Canvas { palette: false, ..old(self).deep_view() }),
    {
        self.palette = false;
    }

    /// The keyboard goes to what was chosen, not back to whoever had it before.
    pub(crate) fn keep_keyboard(&mut self)
        ensures
            final(self).deep_view() == (Canvas { palette_return: None, ..old(self).deep_view() }),
    {
        self.palette_return = None;
    }

    /// What the palette chose.
    pub(crate) fn set_palette_action(&mut self, action: Action)
        ensures
            final(self).deep_view() == (Canvas {
                palette_action: Some(action),
                ..old(self).deep_view()
            }),
    {
        self.palette_action = Some(action);
    }

    /// The next frame opens a shell's find bar.
    pub(crate) fn pend_find(&mut self, session: u128, needle: String)
        ensures
            final(self).deep_view() == (Canvas {
                pending: Pending {
                    find: Some((session, needle@)),
                    ..old(self).deep_view().pending
                },
                ..old(self).deep_view()
            }),
    {
        self.pending.find = Some((session, needle));
    }

    /// The next frame opens a file card's find bar.
    pub(crate) fn pend_find_file(&mut self, item: u128, needle: String)
        ensures
            final(self).deep_view() == (Canvas {
                pending: Pending {
                    find_file: Some((item, needle@)),
                    ..old(self).deep_view().pending
                },
                ..old(self).deep_view()
            }),
    {
        self.pending.find_file = Some((item, needle));
    }

    /// Whether the picker is up.
    pub fn picker_open(&self) -> (r: bool)
        ensures
            r == self.deep_view().picker,
    {
        self.picker
    }

    /// The picker goes up, and takes the keyboard.
    pub(crate) fn show_picker(&mut self)
        ensures
            final(self).deep_view() == old(self).deep_view().then_show_picker(),
    {
        self.picker_wanted = false;
        self.pending.picker = true;
        self.picker = true;
    }

    /// The picker closes; the canvas takes the keyboard where `back`.
    pub(crate) fn close_picker(&mut self, back: bool)
        ensures
            final(self).deep_view() == (Canvas {
                picker: false,
                pending: Pending { canvas: back, ..old(self).deep_view().pending },
                ..old(self).deep_view()
            }),
    {
        self.picker = false;
        self.pending.canvas = back;
    }

    /// Whether a listing is in flight for the picker.
    pub fn picker_wanted(&self) -> (r: bool)
        ensures
            r == self.deep_view().picker_wanted,
    {
        self.picker_wanted
    }

    /// Whether the next listing adds its first display; asked once.
    pub(crate) fn take_display_wanted(&mut self) -> (r: bool)
        ensures
            r == old(self).deep_view().display_wanted,
            final(self).deep_view() == (Canvas {
                display_wanted: false,
                ..old(self).deep_view()
            }),
    {
        let was = self.display_wanted;
        self.display_wanted = false;
        was
    }

    /// A listing names the window cards.
    pub(crate) fn fill_titles(&mut self, windows: &Vec<WindowInfo>)
        ensures
            final(self).deep_view() == (Canvas {
                screens: old(self).deep_view().screens.then_titles(
                    old(self).deep_view().doc.items,
                    windows.deep_view(),
                ),
                ..old(self).deep_view()
            }),
    {
        self.screens.fill_titles(&self.doc, windows);
    }

    /// The host opened a stream.
    pub(crate) fn stream_opened(&mut self, stream: u64, target: CaptureTarget)
        ensures
            final(self).deep_view() == ({
                let (screens, out) = old(self).deep_view().screens.then_opened(
                    stream,
                    target,
                    old(self).deep_view().out,
                );
                Canvas { screens, out, ..old(self).deep_view() }
            }),
    {
        self.screens.opened(stream, target, &mut self.out);
    }

    /// The host closed a stream.
    pub(crate) fn stream_closed(&mut self, stream: u64)
        ensures
            final(self).deep_view() == (Canvas {
                screens: old(self).deep_view().screens.then_closed(stream),
                ..old(self).deep_view()
            }),
    {
        self.screens.closed(stream);
    }

    /// The terminal the next frame gives the keyboard, once.
    pub(crate) fn take_focus(&mut self) -> (r: Option<u128>)
        ensures
            r == old(self).deep_view().pending.focus,
            final(self).deep_view() == (Canvas {
                pending: Pending { focus: None, ..old(self).deep_view().pending },
                ..old(self).deep_view()
            }),
    {
        self.pending.focus.take()
    }

    /// The note the next frame puts the caret in, once.
    pub(crate) fn take_note(&mut self) -> (r: Option<u128>)
        ensures
            r == old(self).deep_view().pending.note,
            final(self).deep_view() == (Canvas {
                pending: Pending { note: None, ..old(self).deep_view().pending },
                ..old(self).deep_view()
            }),
    {
        self.pending.note.take()
    }

    /// The card the next frame brings into view, once.
    pub(crate) fn take_reveal(&mut self) -> (r: Option<u128>)
        ensures
            r == old(self).deep_view().pending.reveal,
            final(self).deep_view() == (Canvas {
                pending: Pending { reveal: None, ..old(self).deep_view().pending },
                ..old(self).deep_view()
            }),
    {
        self.pending.reveal.take()
    }

    /// The shell's find bar the next frame opens, once.
    pub(crate) fn take_find(&mut self) -> (r: Option<(u128, String)>)
        ensures
            sought(r) == old(self).deep_view().pending.find,
            final(self).deep_view() == (Canvas {
                pending: Pending { find: None, ..old(self).deep_view().pending },
                ..old(self).deep_view()
            }),
    {
        self.pending.find.take()
    }

    /// The file card's find bar the next frame opens, once.
    pub(crate) fn take_find_file(&mut self) -> (r: Option<(u128, String)>)
        ensures
            sought(r) == old(self).deep_view().pending.find_file,
            final(self).deep_view() == (Canvas {
                pending: Pending { find_file: None, ..old(self).deep_view().pending },
                ..old(self).deep_view()
            }),
    {
        self.pending.find_file.take()
    }

    /// Whether the next frame gives the picker the keyboard, once.
    pub(crate) fn take_picker(&mut self) -> (r: bool)
        ensures
            r == old(self).deep_view().pending.picker,
            final(self).deep_view() == (Canvas {
                pending: Pending { picker: false, ..old(self).deep_view().pending },
                ..old(self).deep_view()
            }),
    {
        let was = self.pending.picker;
        self.pending.picker = false;
        was
    }

    /// Whether the next frame gives the canvas the keyboard, once.
    pub(crate) fn take_canvas(&mut self) -> (r: bool)
        ensures
            r == old(self).deep_view().pending.canvas,
            final(self).deep_view() == (Canvas {
                pending: Pending { canvas: false, ..old(self).deep_view().pending },
                ..old(self).deep_view()
            }),
    {
        let was = self.pending.canvas;
        self.pending.canvas = false;
        was
    }

    /// Whether the next frame gives the palette the keyboard, once.
    pub(crate) fn take_palette(&mut self) -> (r: bool)
        ensures
            r == old(self).deep_view().pending.palette,
            final(self).deep_view() == (Canvas {
                pending: Pending { palette: false, ..old(self).deep_view().pending },
                ..old(self).deep_view()
            }),
    {
        let was = self.pending.palette;
        self.pending.palette = false;
        was
    }

    /// Whether the next frame gives the name field the keyboard, once.
    pub(crate) fn take_rename(&mut self) -> (r: bool)
        ensures
            r == old(self).deep_view().pending.rename,
            final(self).deep_view() == (Canvas {
                pending: Pending { rename: false, ..old(self).deep_view().pending },
                ..old(self).deep_view()
            }),
    {
        let was = self.pending.rename;
        self.pending.rename = false;
        was
    }

    /// Whether the next frame fits every card, once.
    pub(crate) fn take_fit(&mut self) -> (r: bool)
        ensures
            r == old(self).deep_view().pending.fit,
            final(self).deep_view() == (Canvas {
                pending: Pending { fit: false, ..old(self).deep_view().pending },
                ..old(self).deep_view()
            }),
    {
        let was = self.pending.fit;
        self.pending.fit = false;
        was
    }

    /// Who gets the keyboard back from the name field, once.
    pub(crate) fn take_rename_return(&mut self) -> (r: Option<Keeper>)
        ensures
            r == old(self).deep_view().rename_return,
            final(self).deep_view() == (Canvas {
                rename_return: None,
                ..old(self).deep_view()
            }),
    {
        self.rename_return.take()
    }

    /// Who gets the keyboard back from the palette, once.
    pub(crate) fn take_palette_return(&mut self) -> (r: Option<u64>)
        ensures
            r == old(self).deep_view().palette_return,
            final(self).deep_view() == (Canvas {
                palette_return: None,
                ..old(self).deep_view()
            }),
    {
        self.palette_return.take()
    }

    /// What the palette chose, once.
    pub(crate) fn take_palette_action(&mut self) -> (r: Option<Action>)
        ensures
            r == old(self).deep_view().palette_action,
            final(self).deep_view() == (Canvas {
                palette_action: None,
                ..old(self).deep_view()
            }),
    {
        self.palette_action.take()
    }

    /// The cards that wait for the viewport, once.
    pub(crate) fn take_fit_items(&mut self) -> (r: Vec<u128>)
        ensures
            r@ == old(self).deep_view().fit_items,
            final(self).deep_view() == (Canvas {
                fit_items: Seq::empty(),
                ..old(self).deep_view()
            }),
    {
        let mut taken: Vec<u128> = Vec::new();
        std::mem::swap(&mut taken, &mut self.fit_items);
        taken
    }

    /// Whether a frame has measured the viewport.
    pub(crate) fn set_measured(&mut self, measured: bool)
        ensures
            final(self).deep_view() == (Canvas { measured, ..old(self).deep_view() }),
    {
        self.measured = measured;
    }

    /// Fit every card on the next frame, when the viewport size is known: a phone does not open
    /// onto empty space beside a layout made on a desktop.
    pub fn fit_when_painted(&mut self)
        ensures
            final(self).deep_view() == (Canvas {
                pending: Pending { fit: true, ..old(self).deep_view().pending },
                ..old(self).deep_view()
            }),
    {
        self.pending.fit = true;
    }

    /// The field naming a card.
    pub fn renaming(&self) -> (r: Option<Rename>)
        ensures
            r == self.deep_view().rename,
    {
        self.rename
    }

    /// Whether a note card has an editor.
    pub fn has_note(&self, id: u128) -> (r: bool)
        ensures
            r == self.deep_view().notes.contains(id),
    {
        holds_id(&self.notes, id)
    }

    /// The toast at the top of the canvas.
    pub fn toast(&self) -> (r: Option<&Toast<String>>)
        ensures
            match r {
                Some(t) => self.deep_view().toast == Some(t.deep_view()),
                None => self.deep_view().toast is None,
            },
    {
        match &self.toast {
            Some(t) => Some(t),
            None => None,
        }
    }

    /// The toast goes.
    pub(crate) fn drop_toast(&mut self)
        ensures
            final(self).deep_view() == (Canvas { toast: None, ..old(self).deep_view() }),
    {
        self.toast = None;
    }

    /// The repository headings the last arranging left.
    pub fn headings(&self) -> (r: &Vec<Heading<String, Vec<u128>>>)
        ensures
            r.deep_view() == self.deep_view().headings,
    {
        &self.headings
    }

    /// How long a command has to run before its unwatched end is badged.
    pub fn set_slow_command(&mut self, after: Duration)
        ensures
            final(self).deep_view() == (Canvas {
                shells: ShellState { slow_command: after@, ..old(self).deep_view().shells },
                ..old(self).deep_view()
            }),
    {
        self.shells.set_slow_command(after);
    }

    /// A shell's program set its title.
    pub fn terminal_titled(&mut self, session: u128, title: Option<String>)
        ensures
            final(self).deep_view() == (Canvas {
                shells: old(self).deep_view().shells.then_titled(session, held(title)),
                ..old(self).deep_view()
            }),
    {
        self.shells.set_title(session, title);
    }
}

impl Canvas {
    /// The palette goes up.
    pub open spec fn then_show_palette(self, focused: Option<u64>) -> Canvas {
        Canvas {
            palette: true,
            palette_return: focused,
            pending: Pending { palette: true, ..self.pending },
            ..self
        }
    }

    /// The picker goes up.
    pub open spec fn then_show_picker(self) -> Canvas {
        Canvas {
            picker: true,
            picker_wanted: false,
            pending: Pending { picker: true, ..self.pending },
            ..self
        }
    }
}

} // verus!
