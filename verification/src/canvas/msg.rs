//! What the canvas tells the host and its surroundings.
use vstd::prelude::*;

use crate::agent::AgentStatus;
use crate::canvas::actions::Action;
use crate::canvas::doc::{Op, Rect};

verus! {

/// What a stream shows.
#[derive(Clone, Copy, PartialEq, Eq, Structural, Debug)]
pub enum CaptureTarget {
    Window(u64),
    Display(u64),
}

/// A request on a shell's session.
#[derive(Debug, PartialEq, Eq)]
pub enum TermRequest<T> {
    /// Its rows, for a view of this size.
    Attach { cols: u16, rows: u16 },
    /// What this client paints with, so the driver's colours answer colour queries.
    Colors,
    /// End it.
    Close,
    /// No rows any more.
    Detach,
    /// How often it holds the needle, and the first so many hits.
    Search { needle: T, max: u32, regex: bool },
}

/// A request on the host's screens.
#[derive(Clone, Copy, PartialEq, Eq, Structural, Debug)]
pub enum ScreenRequest {
    /// Which windows and displays there are.
    List,
    Open { target: CaptureTarget },
    Close { stream: u64 },
    /// Give the window of a stream this size, in its own pixels.
    Resize { stream: u64, width: u32, height: u32 },
}

/// A message to the host.
#[derive(Debug, PartialEq, Eq)]
pub enum ClientMsg<T, L> {
    Term { session: u128, req: TermRequest<T> },
    Screen(ScreenRequest),
    Canvas(Op<T>),
    /// A new session: where it starts (the host's default without one), what it runs (the login
    /// shell when empty) and its title.
    OpenSession { cwd: Option<T>, command: L, title: Option<T> },
    ReadFile { path: T },
    WatchFiles { paths: L },
    FindFiles { root: T, query: T },
    /// Where this client looks.
    Look { view: Option<Rect> },
    /// Point the other clients at a card.
    Point { item: u128 },
    InstallHooks,
}

/// Things the surrounding chrome may show.
#[derive(Debug, PartialEq, Eq)]
pub enum CanvasEvent<T> {
    /// Zoom changed, as the bits of a single-precision number (for a status readout).
    Zoom(u32),
    /// A terminal rang its bell.
    Bell(u128),
    /// A coding agent in this session needs the human (permission, question, finished turn).
    Attention(u128),
    /// How many agents are waiting on the human right now (for a count in the chrome).
    NeedsYou(usize),
    /// Something the human should read in the top bar for a moment (a picture refused).
    Notice(T),
}

/// Where the camera is to go.
#[derive(Clone, Copy, PartialEq, Eq, Structural, Debug)]
pub enum Aim {
    /// Where another client looks.
    Looker(u128),
    /// Every card and heading in view.
    All,
    /// One card in view.
    Item(u128),
    /// One card in the middle, at full size.
    Centre(u128),
    /// Full size, about the middle of the view.
    FullSize,
    /// The blocks just arranged in view.
    Arranged,
}

/// What is to be done on the canvas's behalf.
#[derive(Debug, PartialEq, Eq)]
pub enum Effect<T, L> {
    Send(ClientMsg<T, L>),
    Emit(CanvasEvent<T>),
    /// A banner through the notification centre.
    Banner { session: u128, title: T, body: T },
    /// The session's banner is stale.
    Dismiss(u128),
    /// Type the text into a shell, and Enter once.
    RunText { session: u128, text: T },
    /// Hold the device out of idle sleep, or let go.
    Awake(bool),
    /// Whether the notes' fenced blocks have a shell to run in.
    RunTargets(bool),
    /// Wake this toast's dismissal after so many milliseconds.
    ToastTimer { seq: u64, millis: u64 },
    /// Wake this closing's end after so many milliseconds.
    CloseTimer { seq: u64, millis: u64 },
    /// Move the camera.
    Fly(Aim),
    /// Size a card the host placed to the viewport.
    Fit(u128),
    /// Take a shell's size for this client.
    Drive(u128),
    /// Silence or resume a stream.
    ToggleMute(u128),
    /// Show or hide the stream stats.
    Stats(bool),
    /// A shell's view shows what its agent is doing; an absent one goes.
    AgentStatus { session: u128, status: AgentStatus<T> },
    /// Open a stream's view on a card.
    ShowStream { item: u128, stream: u64 },
    /// Put text on this client's clipboard.
    Copy(T),
}

/// An effect as it is held.
pub type Doing = Effect<String, Vec<String>>;

/// An effect, in the model.
pub type Done = Effect<Seq<char>, Seq<Seq<char>>>;

/// What choosing a line of the palette does.
#[derive(Debug, PartialEq, Eq)]
pub enum PaletteRun<T> {
    Action(Action),
    /// Go to a shell.
    Session(u128),
    /// Go to a card.
    Item(u128),
    /// Keep up with another client.
    Follow(u128),
    OpenFile { path: T, line: Option<u32> },
    OpenShell { cwd: T },
    OpenAgent { cwd: T, command: T },
    /// Go to a shell and its find bar.
    FindIn { session: u128, needle: T },
    /// Run a command again.
    Rerun { session: u128, command: T },
    /// Go to a file card and its find bar.
    FindInFile { item: u128, needle: T },
}

/// What the palette reports.
#[derive(Debug, PartialEq, Eq)]
pub enum PaletteEvent<T> {
    /// Its field changed.
    Changed(T),
    /// A line was chosen.
    Run(PaletteRun<T>),
    /// It was closed.
    Dismiss,
}

impl DeepView for TermRequest<String> {
    type V = TermRequest<Seq<char>>;

    open spec fn deep_view(&self) -> TermRequest<Seq<char>> {
        match *self {
            TermRequest::Attach { cols, rows } => TermRequest::Attach { cols, rows },
            TermRequest::Colors => TermRequest::Colors,
            TermRequest::Close => TermRequest::Close,
            TermRequest::Detach => TermRequest::Detach,
            TermRequest::Search { needle, max, regex } => TermRequest::Search {
                needle: needle@,
                max,
                regex,
            },
        }
    }
}

impl DeepView for ClientMsg<String, Vec<String>> {
    type V = ClientMsg<Seq<char>, Seq<Seq<char>>>;

    open spec fn deep_view(&self) -> ClientMsg<Seq<char>, Seq<Seq<char>>> {
        match *self {
            ClientMsg::Term { session, req } => ClientMsg::Term { session, req: req.deep_view() },
            ClientMsg::Screen(req) => ClientMsg::Screen(req),
            ClientMsg::Canvas(op) => ClientMsg::Canvas(op.deep_view()),
            ClientMsg::OpenSession { cwd, command, title } => ClientMsg::OpenSession {
                cwd: cwd.deep_view(),
                command: command.deep_view(),
                title: title.deep_view(),
            },
            ClientMsg::ReadFile { path } => ClientMsg::ReadFile { path: path@ },
            ClientMsg::WatchFiles { paths } => ClientMsg::WatchFiles { paths: paths.deep_view() },
            ClientMsg::FindFiles { root, query } => ClientMsg::FindFiles {
                root: root@,
                query: query@,
            },
            ClientMsg::Look { view } => ClientMsg::Look { view },
            ClientMsg::Point { item } => ClientMsg::Point { item },
            ClientMsg::InstallHooks => ClientMsg::InstallHooks,
        }
    }
}

impl DeepView for CanvasEvent<String> {
    type V = CanvasEvent<Seq<char>>;

    open spec fn deep_view(&self) -> CanvasEvent<Seq<char>> {
        match *self {
            CanvasEvent::Zoom(bits) => CanvasEvent::Zoom(bits),
            CanvasEvent::Bell(session) => CanvasEvent::Bell(session),
            CanvasEvent::Attention(session) => CanvasEvent::Attention(session),
            CanvasEvent::NeedsYou(n) => CanvasEvent::NeedsYou(n),
            CanvasEvent::Notice(text) => CanvasEvent::Notice(text@),
        }
    }
}

impl DeepView for Effect<String, Vec<String>> {
    type V = Effect<Seq<char>, Seq<Seq<char>>>;

    open spec fn deep_view(&self) -> Effect<Seq<char>, Seq<Seq<char>>> {
        match *self {
            Effect::Send(msg) => Effect::Send(msg.deep_view()),
            Effect::Emit(event) => Effect::Emit(event.deep_view()),
            Effect::Banner { session, title, body } => Effect::Banner {
                session,
                title: title@,
                body: body@,
            },
            Effect::Dismiss(session) => Effect::Dismiss(session),
            Effect::RunText { session, text } => Effect::RunText { session, text: text@ },
            Effect::Awake(on) => Effect::Awake(on),
            Effect::RunTargets(can) => Effect::RunTargets(can),
            Effect::ToastTimer { seq, millis } => Effect::ToastTimer { seq, millis },
            Effect::CloseTimer { seq, millis } => Effect::CloseTimer { seq, millis },
            Effect::Fly(aim) => Effect::Fly(aim),
            Effect::Fit(id) => Effect::Fit(id),
            Effect::Drive(session) => Effect::Drive(session),
            Effect::ToggleMute(item) => Effect::ToggleMute(item),
            Effect::Stats(on) => Effect::Stats(on),
            Effect::AgentStatus { session, status } => Effect::AgentStatus {
                session,
                status: status.deep_view(),
            },
            Effect::ShowStream { item, stream } => Effect::ShowStream { item, stream },
            Effect::Copy(text) => Effect::Copy(text@),
        }
    }
}

impl DeepView for PaletteRun<String> {
    type V = PaletteRun<Seq<char>>;

    open spec fn deep_view(&self) -> PaletteRun<Seq<char>> {
        match *self {
            PaletteRun::Action(action) => PaletteRun::Action(action),
            PaletteRun::Session(session) => PaletteRun::Session(session),
            PaletteRun::Item(item) => PaletteRun::Item(item),
            PaletteRun::Follow(client) => PaletteRun::Follow(client),
            PaletteRun::OpenFile { path, line } => PaletteRun::OpenFile { path: path@, line },
            PaletteRun::OpenShell { cwd } => PaletteRun::OpenShell { cwd: cwd@ },
            PaletteRun::OpenAgent { cwd, command } => PaletteRun::OpenAgent {
                cwd: cwd@,
                command: command@,
            },
            PaletteRun::FindIn { session, needle } => PaletteRun::FindIn {
                session,
                needle: needle@,
            },
            PaletteRun::Rerun { session, command } => PaletteRun::Rerun {
                session,
                command: command@,
            },
            PaletteRun::FindInFile { item, needle } => PaletteRun::FindInFile {
                item,
                needle: needle@,
            },
        }
    }
}

impl DeepView for PaletteEvent<String> {
    type V = PaletteEvent<Seq<char>>;

    open spec fn deep_view(&self) -> PaletteEvent<Seq<char>> {
        match *self {
            PaletteEvent::Changed(text) => PaletteEvent::Changed(text@),
            PaletteEvent::Run(run) => PaletteEvent::Run(run.deep_view()),
            PaletteEvent::Dismiss => PaletteEvent::Dismiss,
        }
    }
}

impl PaletteRun<String> {
    /// A copy.
    pub fn copy(&self) -> (r: PaletteRun<String>)
        ensures
            r.deep_view() == self.deep_view(),
    {
        match self {
            PaletteRun::Action(action) => PaletteRun::Action(*action),
            PaletteRun::Session(session) => PaletteRun::Session(*session),
            PaletteRun::Item(item) => PaletteRun::Item(*item),
            PaletteRun::Follow(client) => PaletteRun::Follow(*client),
            PaletteRun::OpenFile { path, line } => PaletteRun::OpenFile {
                path: path.clone(),
                line: *line,
            },
            PaletteRun::OpenShell { cwd } => PaletteRun::OpenShell { cwd: cwd.clone() },
            PaletteRun::OpenAgent { cwd, command } => PaletteRun::OpenAgent {
                cwd: cwd.clone(),
                command: command.clone(),
            },
            PaletteRun::FindIn { session, needle } => PaletteRun::FindIn {
                session: *session,
                needle: needle.clone(),
            },
            PaletteRun::Rerun { session, command } => PaletteRun::Rerun {
                session: *session,
                command: command.clone(),
            },
            PaletteRun::FindInFile { item, needle } => PaletteRun::FindInFile {
                item: *item,
                needle: needle.clone(),
            },
        }
    }
}

/// What is to be done, in order.
#[derive(Debug)]
pub struct Outbox {
    doing: Vec<Doing>,
}

impl DeepView for Outbox {
    type V = Seq<Done>;

    closed spec fn deep_view(&self) -> Seq<Done> {
        self.doing.deep_view()
    }
}

impl Outbox {
    /// Nothing to be done.
    pub fn new() -> (r: Outbox)
        ensures
            r.deep_view() == Seq::<Done>::empty(),
    {
        let r = Outbox { doing: Vec::new() };
        assert(r.deep_view() =~= Seq::<Done>::empty());
        r
    }

    /// One thing more.
    pub fn push(&mut self, one: Doing)
        ensures
            final(self).deep_view() == old(self).deep_view().push(one.deep_view()),
    {
        let ghost want = self.deep_view().push(one.deep_view());
        self.doing.push(one);
        assert(self.deep_view() =~= want);
    }

    /// A message to the host.
    pub fn send(&mut self, msg: ClientMsg<String, Vec<String>>)
        ensures
            final(self).deep_view() == old(self).deep_view().push(Effect::Send(msg.deep_view())),
    {
        self.push(Effect::Send(msg));
    }

    /// A request on a session.
    pub fn term(&mut self, session: u128, req: TermRequest<String>)
        ensures
            final(self).deep_view() == old(self).deep_view().push(
                Effect::Send(ClientMsg::Term { session, req: req.deep_view() }),
            ),
    {
        self.send(ClientMsg::Term { session, req });
    }

    /// All of it, and nothing is left.
    pub fn take(&mut self) -> (r: Vec<Doing>)
        ensures
            r.deep_view() == old(self).deep_view(),
            final(self).deep_view() == Seq::<Done>::empty(),
    {
        let mut taken: Vec<Doing> = Vec::new();
        std::mem::swap(&mut taken, &mut self.doing);
        assert(self.deep_view() =~= Seq::<Done>::empty());
        taken
    }
}

} // verus!
