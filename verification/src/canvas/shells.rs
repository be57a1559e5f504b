//! The shells of the canvas: their sessions, their agents, and which one a command goes to.
use vstd::prelude::*;

use crate::agent::{is_working, works, Agent, AgentEvent, AgentStatus};
use crate::canvas::titles::{Ended, Finished};
use crate::list::{drop_id, dropped, first_index, holds_id, lemma_first_index, position};
use crate::table::Table;
use crate::text::{chars_of, copy_of, held};
use crate::time::Duration;

verus! {

/// How long a shell command has to run before its end, unwatched, is worth a badge, in seconds:
/// shorter commands end before the human has looked away.
pub const SLOW_COMMAND: u64 = 5;

/// What a session is.
#[derive(Clone, Copy, PartialEq, Eq, Structural, Debug)]
pub enum SessionKind {
    /// A terminal.
    Terminal,
    /// One the host drives as an agent.
    Agent,
}

/// A session on the host.
#[derive(Debug, PartialEq, Eq)]
pub struct Session<T> {
    pub id: u128,
    pub kind: SessionKind,
    pub title: T,
    /// Where it is now.
    pub cwd: Option<T>,
    /// The repository that is in, as the host resolved it.
    pub repo: Option<T>,
    pub cols: u16,
    pub rows: u16,
}

/// A session as it is held.
pub type SessionSummary = Session<String>;

/// A shell drawn here, and its program's title.
#[derive(Debug, PartialEq, Eq)]
pub struct Shell<T> {
    pub session: u128,
    pub title: Option<T>,
}

impl DeepView for Session<String> {
    type V = Session<Seq<char>>;

    open spec fn deep_view(&self) -> Session<Seq<char>> {
        Session {
            id: self.id,
            kind: self.kind,
            title: self.title@,
            cwd: held(self.cwd),
            repo: held(self.repo),
            cols: self.cols,
            rows: self.rows,
        }
    }
}

impl DeepView for Shell<String> {
    type V = Shell<Seq<char>>;

    open spec fn deep_view(&self) -> Shell<Seq<char>> {
        Shell { session: self.session, title: held(self.title) }
    }
}

/// The shells, their sessions and their agents.
#[derive(Debug)]
pub struct Shells {
    terminals: Vec<Shell<String>>,
    sessions: Table<SessionSummary>,
    /// Coding agents the host has observed, by session.
    agents: Table<AgentEvent>,
    /// Terminal sessions oldest first, moved to the end when one is activated.
    recency: Vec<u128>,
    /// Shell commands that ran long and finished while their item was not the active one.
    finished: Table<Finished>,
    /// A command that ran at least this long earns the badge when it ends unwatched.
    slow_command: Duration,
    /// The device is held out of idle sleep while an agent works.
    awake: bool,
}

/// The shells, in the model.
pub struct ShellState {
    pub terminals: Seq<Shell<Seq<char>>>,
    pub sessions: Map<u128, Session<Seq<char>>>,
    pub agents: Map<u128, Agent<Seq<char>>>,
    pub recency: Seq<u128>,
    pub finished: Map<u128, Ended>,
    pub slow_command: nat,
    pub awake: bool,
}

impl DeepView for Shells {
    type V = ShellState;

    closed spec fn deep_view(&self) -> ShellState {
        ShellState {
            terminals: self.terminals.deep_view(),
            sessions: self.sessions.deep_view(),
            agents: self.agents.deep_view(),
            recency: self.recency@,
            finished: self.finished.deep_view(),
            slow_command: self.slow_command@,
            awake: self.awake,
        }
    }
}

/// The shell of a session among those drawn here.
pub open spec fn shell_in(terminals: Seq<Shell<Seq<char>>>, session: u128) -> Option<
    Shell<Seq<char>>,
>
    decreases terminals.len(),
{
    if terminals.len() == 0 {
        None
    } else if terminals[0].session == session {
        Some(terminals[0])
    } else {
        shell_in(terminals.drop_first(), session)
    }
}

/// The shells but that of a session.
pub open spec fn shells_without(terminals: Seq<Shell<Seq<char>>>, session: u128) -> Seq<
    Shell<Seq<char>>,
>
    decreases terminals.len(),
{
    if terminals.len() == 0 {
        Seq::empty()
    } else if terminals.last().session == session {
        shells_without(terminals.drop_last(), session)
    } else {
        shells_without(terminals.drop_last(), session).push(terminals.last())
    }
}

/// The sessions that are terminals, in their order.
pub open spec fn terminal_ids(sessions: Seq<Session<Seq<char>>>) -> Seq<u128>
    decreases sessions.len(),
{
    if sessions.len() == 0 {
        Seq::empty()
    } else if sessions.last().kind == SessionKind::Terminal {
        terminal_ids(sessions.drop_last()).push(sessions.last().id)
    } else {
        terminal_ids(sessions.drop_last())
    }
}

/// The sessions by their identities, a later one in place of an earlier.
pub open spec fn by_id(sessions: Seq<Session<Seq<char>>>) -> Map<u128, Session<Seq<char>>>
    decreases sessions.len(),
{
    if sessions.len() == 0 {
        Map::empty()
    } else {
        by_id(sessions.drop_last()).insert(sessions.last().id, sessions.last())
    }
}

/// `session` at the end of the recency, where it is in it.
pub open spec fn touched(recency: Seq<u128>, session: u128) -> Seq<u128> {
    let at = first_index(recency, session);
    if at < recency.len() {
        recency.remove(at).push(session)
    } else {
        recency
    }
}

impl ShellState {
    /// The session is drawn here.
    pub open spec fn drawn(self, session: u128) -> bool {
        shell_in(self.terminals, session) is Some
    }

    /// The session is alive on the host.
    pub open spec fn alive(self, session: u128) -> bool {
        self.sessions.contains_key(session)
    }

    /// A plain shell on this canvas: a terminal session, drawn here, and one no coding agent has
    /// been seen in.
    pub open spec fn is_shell(self, session: u128) -> bool {
        &&& self.drawn(session)
        &&& !self.agents.contains_key(session)
        &&& self.alive(session)
        &&& self.sessions[session].kind == SessionKind::Terminal
    }

    /// The last of `recency` that is a plain shell.
    pub open spec fn last_shell(self, recency: Seq<u128>) -> Option<u128>
        decreases recency.len(),
    {
        if recency.len() == 0 {
            None
        } else if self.is_shell(recency.last()) {
            Some(recency.last())
        } else {
            self.last_shell(recency.drop_last())
        }
    }

    /// The shell a fenced block runs in: the most recently activated one, else the newest.
    pub open spec fn run_target(self) -> Option<u128> {
        self.last_shell(self.recency)
    }

    /// An agent works in some session.
    pub open spec fn working(self) -> bool {
        exists|s: u128| #[trigger] self.agents.contains_key(s) && works(self.agents[s])
    }

    /// What a terminal's title bar says: the program's title, else the session's, else "shell".
    pub open spec fn title(self, session: u128) -> Seq<char> {
        let own = match shell_in(self.terminals, session) {
            Some(shell) => shell.title,
            None => None,
        };
        let title = match own {
            Some(t) => Some(t),
            None => if self.alive(session) {
                Some(self.sessions[session].title)
            } else {
                None
            },
        };
        match title {
            Some(t) => if t.len() > 0 {
                t
            } else {
                "shell"@
            },
            None => "shell"@,
        }
    }

    /// Where a session is.
    pub open spec fn cwd(self, session: u128) -> Option<Seq<char>> {
        if self.alive(session) {
            self.sessions[session].cwd
        } else {
            None
        }
    }

    /// The repository a session is in.
    pub open spec fn repo(self, session: u128) -> Option<Seq<char>> {
        if self.alive(session) {
            self.sessions[session].repo
        } else {
            None
        }
    }

    /// A session appeared.
    pub open spec fn then_opened(self, summary: Session<Seq<char>>) -> ShellState {
        ShellState {
            recency: if summary.kind == SessionKind::Terminal && !self.recency.contains(
                summary.id,
            ) {
                self.recency.push(summary.id)
            } else {
                self.recency
            },
            sessions: self.sessions.insert(summary.id, summary),
            ..self
        }
    }

    /// A session is gone.
    pub open spec fn then_closed(self, session: u128) -> ShellState {
        ShellState {
            sessions: self.sessions.remove(session),
            agents: self.agents.remove(session),
            recency: dropped(self.recency, session),
            ..self
        }
    }

    /// A session changed directory.
    pub open spec fn then_moved(
        self,
        session: u128,
        cwd: Seq<char>,
        repo: Option<Seq<char>>,
    ) -> ShellState {
        if self.alive(session) {
            ShellState {
                sessions: self.sessions.insert(
                    session,
                    Session { cwd: Some(cwd), repo, ..self.sessions[session] },
                ),
                ..self
            }
        } else {
            self
        }
    }

    /// A session was just activated.
    pub open spec fn then_touched(self, session: u128) -> ShellState {
        ShellState { recency: touched(self.recency, session), ..self }
    }

    /// The host observed an agent's state; no agent is none to keep.
    pub open spec fn then_agent(self, event: Agent<Seq<char>>) -> ShellState {
        ShellState {
            agents: if event.status is Absent {
                self.agents.remove(event.session)
            } else {
                self.agents.insert(event.session, event)
            },
            ..self
        }
    }

    /// A shell is drawn.
    pub open spec fn then_drawn(self, session: u128) -> ShellState {
        ShellState { terminals: self.terminals.push(Shell { session, title: None }), ..self }
    }

    /// A shell is drawn no more.
    pub open spec fn then_undrawn(self, session: u128) -> ShellState {
        ShellState { terminals: shells_without(self.terminals, session), ..self }
    }

    /// A shell's program set its title.
    pub open spec fn then_titled(self, session: u128, title: Option<Seq<char>>) -> ShellState {
        ShellState {
            terminals: self.terminals.map_values(
                |s: Shell<Seq<char>>|
                    if s.session == session {
                        Shell { title, ..s }
                    } else {
                        s
                    },
            ),
            ..self
        }
    }

    /// A shell command ended. Long enough, and in an item the human is not on, it earns a badge.
    pub open spec fn then_finished(self, session: u128, done: Ended, watched: bool) -> ShellState {
        if watched || done.elapsed < self.slow_command {
            self
        } else {
            ShellState { finished: self.finished.insert(session, done), ..self }
        }
    }

    /// The item was looked at.
    pub open spec fn then_seen(self, session: u128) -> ShellState {
        ShellState { finished: self.finished.remove(session), ..self }
    }
}

impl Session<String> {
    /// A copy.
    pub fn copy(&self) -> (r: Session<String>)
        ensures
            r.deep_view() == self.deep_view(),
    {
        Session {
            id: self.id,
            kind: self.kind,
            title: self.title.clone(),
            cwd: copy_of(&self.cwd),
            repo: copy_of(&self.repo),
            cols: self.cols,
            rows: self.rows,
        }
    }
}

impl Shells {
    /// The shells of a host link with these sessions; none is drawn yet.
    pub fn new(sessions: Vec<SessionSummary>) -> (r: Shells)
        ensures
            r.deep_view() == (ShellState {
                terminals: Seq::empty(),
                sessions: by_id(sessions.deep_view()),
                agents: Map::empty(),
                recency: terminal_ids(sessions.deep_view()),
                finished: Map::empty(),
                slow_command: (SLOW_COMMAND * 1_000_000_000) as nat,
                awake: false,
            }),
    {
        let mut table: Table<SessionSummary> = Table::new();
        let mut recency: Vec<u128> = Vec::new();
        let ghost all = sessions.deep_view();
        let mut i: usize = 0;
        while i < sessions.len()
            invariant
                i <= sessions@.len(),
                all == sessions.deep_view(),
                table.deep_view() == by_id(all.take(i as int)),
                recency@ == terminal_ids(all.take(i as int)),
            decreases sessions.len() - i,
        {
            let one = sessions[i].copy();
            proof {
                assert(all[i as int] == one.deep_view());
                assert(all.take(i + 1).drop_last() == all.take(i as int));
                assert(all.take(i + 1).last() == all[i as int]);
            }
            if let SessionKind::Terminal = one.kind {
                recency.push(one.id);
            }
            table.put(one.id, one);
            i += 1;
        }
        assert(all.take(i as int) == all);
        let r = Shells {
            terminals: Vec::new(),
            sessions: table,
            agents: Table::new(),
            recency,
            finished: Table::new(),
            slow_command: Duration::from_secs(SLOW_COMMAND),
            awake: false,
        };
        assert(r.deep_view().terminals =~= Seq::<Shell<Seq<char>>>::empty());
        r
    }

    /// The shell of a session, where it is drawn here.
    pub fn shell(&self, session: u128) -> (r: Option<&Shell<String>>)
        ensures
            match r {
                Some(shell) => shell_in(self.deep_view().terminals, session) == Some(
                    shell.deep_view(),
                ),
                None => shell_in(self.deep_view().terminals, session) is None,
            },
    {
        let ghost all = self.deep_view().terminals;
        let mut i: usize = 0;
        assert(all.skip(0) == all);
        while i < self.terminals.len()
            invariant
                i <= self.terminals@.len(),
                all == self.deep_view().terminals,
                all.len() == self.terminals@.len(),
                shell_in(all, session) == shell_in(all.skip(i as int), session),
            decreases self.terminals.len() - i,
        {
            proof {
                assert(all[i as int] == self.terminals@[i as int].deep_view());
                assert(all.skip(i as int)[0] == all[i as int]);
                assert(all.skip(i as int).drop_first() == all.skip(i + 1));
            }
            if self.terminals[i].session == session {
                return Some(&self.terminals[i]);
            }
            i += 1;
        }
        None
    }

    /// How many shells are drawn here.
    pub fn drawn_count(&self) -> (r: usize)
        ensures
            r == self.deep_view().terminals.len(),
    {
        self.terminals.len()
    }

    /// The session of the shell at a place.
    pub fn drawn_at(&self, at: usize) -> (r: u128)
        requires
            at < self.deep_view().terminals.len(),
        ensures
            r == self.deep_view().terminals[at as int].session,
    {
        self.terminals[at].session
    }

    /// Whether the session is drawn here.
    pub fn drawn(&self, session: u128) -> (r: bool)
        ensures
            r == self.deep_view().drawn(session),
    {
        self.shell(session).is_some()
    }

    /// The session, where it is alive.
    pub fn session(&self, session: u128) -> (r: Option<&SessionSummary>)
        ensures
            match r {
                Some(s) => self.deep_view().alive(session) && self.deep_view().sessions[session]
                    == s.deep_view(),
                None => !self.deep_view().alive(session),
            },
    {
        self.sessions.get(session)
    }

    /// Whether the session is alive.
    pub fn alive(&self, session: u128) -> (r: bool)
        ensures
            r == self.deep_view().alive(session),
    {
        self.sessions.has(session)
    }

    /// What the host last said about a session's agent.
    pub fn agent(&self, session: u128) -> (r: Option<&AgentEvent>)
        ensures
            match r {
                Some(a) => self.deep_view().agents.contains_key(session)
                    && self.deep_view().agents[session] == a.deep_view(),
                None => !self.deep_view().agents.contains_key(session),
            },
    {
        self.agents.get(session)
    }

    /// The badge a session's last long command left.
    pub fn finished(&self, session: u128) -> (r: Option<&Finished>)
        ensures
            match r {
                Some(f) => self.deep_view().finished.contains_key(session)
                    && self.deep_view().finished[session] == f.deep_view(),
                None => !self.deep_view().finished.contains_key(session),
            },
    {
        self.finished.get(session)
    }

    /// Whether the session is a plain shell on this canvas: the only thing a fenced block from an
    /// answer may be typed into.
    pub fn is_shell(&self, session: u128) -> (r: bool)
        ensures
            r == self.deep_view().is_shell(session),
    {
        if !self.drawn(session) || self.agents.has(session) {
            return false;
        }
        match self.sessions.get(session) {
            Some(s) => match s.kind {
                SessionKind::Terminal => true,
                SessionKind::Agent => false,
            },
            None => false,
        }
    }

    /// The shell a fenced block runs in: the most recently activated one, else the newest.
    pub fn run_target(&self) -> (r: Option<u128>)
        ensures
            r == self.deep_view().run_target(),
    {
        let ghost all = self.recency@;
        let ghost state = self.deep_view();
        let mut n: usize = self.recency.len();
        assert(all.take(n as int) == all);
        while n > 0
            invariant
                n <= self.recency@.len(),
                all == self.recency@,
                state == self.deep_view(),
                state.last_shell(all) == state.last_shell(all.take(n as int)),
            decreases n,
        {
            proof {
                assert(all.take(n as int).last() == all[n - 1]);
                assert(all.take(n as int).drop_last() == all.take(n - 1));
            }
            if self.is_shell(self.recency[n - 1]) {
                return Some(self.recency[n - 1]);
            }
            n -= 1;
        }
        None
    }

    /// Whether an agent works in any session (thinking or running a tool).
    pub fn working(&self) -> (r: bool)
        ensures
            r == self.deep_view().working(),
    {
        let keys = self.agents.keys();
        let ghost agents = self.deep_view().agents;
        let mut i: usize = 0;
        while i < keys.len()
            invariant
                i <= keys@.len(),
                agents == self.agents.deep_view(),
                agents == self.deep_view().agents,
                forall|k: u128| #[trigger] keys@.contains(k) <==> agents.contains_key(k),
                forall|j: int| 0 <= j < i ==> !works(agents[#[trigger] keys@[j]]),
            decreases keys.len() - i,
        {
            let key: u128 = keys[i];
            assert(keys@.contains(key));
            if let Some(agent) = self.agents.get(key) {
                if is_working(agent) {
                    assert(agents.contains_key(key) && works(agents[key]));
                    return true;
                }
            }
            i += 1;
        }
        proof {
            assert forall|s: u128| #[trigger] agents.contains_key(s) implies !works(agents[s]) by {
                assert(keys@.contains(s));
                let j = choose|j: int| 0 <= j < keys@.len() && keys@[j] == s;
                assert(!works(agents[keys@[j]]));
            }
        }
        false
    }

    /// Hold the device awake while any agent works, let go when none does: what to do about it, if
    /// anything.
    pub fn update_awake(&mut self) -> (r: Option<bool>)
        ensures
            final(self).deep_view() == (ShellState {
                awake: old(self).deep_view().working(),
                ..old(self).deep_view()
            }),
            r == (if old(self).deep_view().awake == old(self).deep_view().working() {
                None
            } else {
                Some(old(self).deep_view().working())
            }),
    {
        let working = self.working();
        if working == self.awake {
            return None;
        }
        self.awake = working;
        Some(working)
    }

    /// What a terminal's title bar says: the program's title, else the session's, else "shell".
    pub fn title(&self, session: u128) -> (r: String)
        ensures
            r@ == self.deep_view().title(session),
    {
        let own: Option<String> = match self.shell(session) {
            Some(shell) => copy_of(&shell.title),
            None => None,
        };
        let title: Option<String> = match own {
            Some(t) => Some(t),
            None => match self.sessions.get(session) {
                Some(s) => Some(s.title.clone()),
                None => None,
            },
        };
        match title {
            Some(t) => if chars_of(t.as_str()).len() > 0 {
                t
            } else {
                "shell".to_owned()
            },
            None => "shell".to_owned(),
        }
    }

    /// Where a session is.
    pub fn cwd(&self, session: u128) -> (r: Option<String>)
        ensures
            held(r) == self.deep_view().cwd(session),
    {
        match self.sessions.get(session) {
            Some(s) => copy_of(&s.cwd),
            None => None,
        }
    }

    /// The repository a session is in.
    pub fn repo(&self, session: u128) -> (r: Option<String>)
        ensures
            held(r) == self.deep_view().repo(session),
    {
        match self.sessions.get(session) {
            Some(s) => copy_of(&s.repo),
            None => None,
        }
    }

    /// A session appeared (ours or another client's).
    pub fn opened(&mut self, summary: SessionSummary)
        ensures
            final(self).deep_view() == old(self).deep_view().then_opened(summary.deep_view()),
    {
        let known = holds_id(&self.recency, summary.id);
        if let SessionKind::Terminal = summary.kind {
            if !known {
                self.recency.push(summary.id);
            }
        }
        self.sessions.put(summary.id, summary);
    }

    /// A session is gone.
    pub fn closed(&mut self, session: u128)
        ensures
            final(self).deep_view() == old(self).deep_view().then_closed(session),
    {
        self.sessions.take_out(session);
        self.agents.take_out(session);
        drop_id(&mut self.recency, session);
    }

    /// A session changed directory, and the host says which repository that is in. The opening
    /// summary is only where the shell started; arranging groups on where it is now.
    pub fn moved(&mut self, session: u128, cwd: String, repo: Option<String>)
        ensures
            final(self).deep_view() == old(self).deep_view().then_moved(session, cwd@, held(repo)),
    {
        let next = match self.sessions.get(session) {
            Some(s) => {
                let mut next = s.copy();
                next.cwd = Some(cwd);
                next.repo = repo;
                next
            },
            None => {
                return;
            },
        };
        self.sessions.put(session, next);
    }

    /// Remember that `session` was just activated, so a command goes to the shell the human was
    /// last in rather than whichever opened last.
    pub fn touch(&mut self, session: u128)
        ensures
            final(self).deep_view() == old(self).deep_view().then_touched(session),
    {
        if let Some(at) = position(&self.recency, session) {
            self.recency.remove(at);
            self.recency.push(session);
        }
    }

    /// The host observed an agent's state in a session.
    pub fn set_agent(&mut self, event: AgentEvent)
        ensures
            final(self).deep_view() == old(self).deep_view().then_agent(event.deep_view()),
    {
        let session: u128 = event.session;
        match &event.status {
            AgentStatus::Absent => {
                self.agents.take_out(session);
            },
            _ => {
                self.agents.put(session, event);
            },
        }
    }

    /// A shell is drawn.
    pub fn draw(&mut self, session: u128)
        ensures
            final(self).deep_view() == old(self).deep_view().then_drawn(session),
    {
        let one: Shell<String> = Shell { session, title: None };
        let ghost want = self.deep_view().terminals.push(one.deep_view());
        self.terminals.push(one);
        assert(self.terminals.deep_view() =~= want);
    }

    /// A shell is drawn no more.
    pub fn undraw(&mut self, session: u128)
        ensures
            final(self).deep_view() == old(self).deep_view().then_undrawn(session),
    {
        let ghost all = self.deep_view().terminals;
        let mut kept: Vec<Shell<String>> = Vec::new();
        let mut i: usize = 0;
        assert(kept.deep_view() =~= Seq::<Shell<Seq<char>>>::empty());
        while i < self.terminals.len()
            invariant
                i <= self.terminals@.len(),
                all == self.deep_view().terminals,
                all.len() == self.terminals@.len(),
                kept.deep_view() == shells_without(all.take(i as int), session),
            decreases self.terminals.len() - i,
        {
            proof {
                assert(all[i as int] == self.terminals@[i as int].deep_view());
                assert(all.take(i + 1).drop_last() == all.take(i as int));
                assert(all.take(i + 1).last() == all[i as int]);
            }
            if self.terminals[i].session != session {
                let one = Shell {
                    session: self.terminals[i].session,
                    title: copy_of(&self.terminals[i].title),
                };
                let ghost want = kept.deep_view().push(one.deep_view());
                kept.push(one);
                assert(kept.deep_view() =~= want);
            }
            i += 1;
        }
        assert(all.take(i as int) == all);
        self.terminals = kept;
    }

    /// A shell's program set its title.
    pub fn set_title(&mut self, session: u128, title: Option<String>)
        ensures
            final(self).deep_view() == old(self).deep_view().then_titled(session, held(title)),
    {
        let ghost was = self.deep_view().terminals;
        let ghost said = held(title);
        let ghost f = |s: Shell<Seq<char>>|
            if s.session == session {
                Shell { title: said, ..s }
            } else {
                s
            };
        let ghost kept = self.deep_view();
        let mut i: usize = 0;
        while i < self.terminals.len()
            invariant
                i <= self.terminals@.len(),
                self.terminals@.len() == was.len(),
                said == held(title),
                f == (|s: Shell<Seq<char>>|
                    if s.session == session {
                        Shell { title: said, ..s }
                    } else {
                        s
                    }),
                self.deep_view() == (ShellState { terminals: self.terminals.deep_view(), ..kept }),
                forall|k: int|
                    0 <= k < i ==> (#[trigger] self.terminals@[k]).deep_view() == f(was[k]),
                forall|k: int|
                    i <= k < was.len() ==> (#[trigger] self.terminals@[k]).deep_view() == was[k],
            decreases self.terminals.len() - i,
        {
            if self.terminals[i].session == session {
                let one = Shell { session, title: copy_of(&title) };
                self.terminals.set(i, one);
            }
            i += 1;
        }
        assert(self.terminals.deep_view() =~= was.map_values(f));
    }

    /// A shell command ended in `session`. Long enough, and in an item the human is not on, it
    /// earns a title-bar badge, cleared when the item is activated. A new end replaces an older
    /// badge.
    pub fn finish(&mut self, session: u128, done: Finished, watched: bool)
        ensures
            final(self).deep_view() == old(self).deep_view().then_finished(
                session,
                done.deep_view(),
                watched,
            ),
    {
        if watched || done.elapsed.shorter_than(self.slow_command) {
            return;
        }
        self.finished.put(session, done);
    }

    /// The item of `session` was looked at: its badge goes.
    pub fn seen(&mut self, session: u128)
        ensures
            final(self).deep_view() == old(self).deep_view().then_seen(session),
    {
        self.finished.take_out(session);
    }

    /// How long a command has to run before its unwatched end is badged.
    pub fn set_slow_command(&mut self, after: Duration)
        ensures
            final(self).deep_view() == (ShellState {
                slow_command: after@,
                ..old(self).deep_view()
            }),
    {
        self.slow_command = after;
    }
}

/// A command goes to a plain shell, and to the one last activated where that is one.
pub proof fn law_a_command_goes_to_the_shell_last_used(shells: ShellState, session: u128)
    ensures
        shells.run_target() matches Some(s) ==> shells.is_shell(s) && shells.recency.contains(s),
        shells.is_shell(session) && shells.recency.contains(session) ==> shells.then_touched(
            session,
        ).run_target() == Some(session),
{
    lemma_last_shell(shells, shells.recency);
    lemma_first_index(shells.recency, session);
    if shells.is_shell(session) && shells.recency.contains(session) {
        let next = shells.then_touched(session);
        assert(next.recency.last() == session);
        assert(next.is_shell(session));
    }
}

proof fn lemma_last_shell(shells: ShellState, recency: Seq<u128>)
    ensures
        shells.last_shell(recency) matches Some(s) ==> shells.is_shell(s) && recency.contains(s),
        shells.last_shell(recency) is None ==> forall|i: int|
            0 <= i < recency.len() ==> !shells.is_shell(#[trigger] recency[i]),
    decreases recency.len(),
{
    if recency.len() > 0 {
        let rest = recency.drop_last();
        lemma_last_shell(shells, rest);
        if shells.is_shell(recency.last()) {
            assert(recency[recency.len() - 1] == recency.last());
        } else {
            if let Some(s) = shells.last_shell(recency) {
                let k = choose|k: int| 0 <= k < rest.len() && rest[k] == s;
                assert(recency[k] == s);
            } else {
                assert forall|i: int| 0 <= i < recency.len() implies !shells.is_shell(
                    #[trigger] recency[i],
                ) by {
                    if i < rest.len() {
                        assert(rest[i] == recency[i]);
                    }
                }
            }
        }
    }
}

/// A fenced block can run exactly while some shell of the recency is a plain one.
pub proof fn law_a_command_has_somewhere_to_go(shells: ShellState)
    ensures
        shells.run_target() is Some <==> exists|i: int|
            0 <= i < shells.recency.len() && shells.is_shell(#[trigger] shells.recency[i]),
{
    lemma_last_shell(shells, shells.recency);
    if let Some(s) = shells.run_target() {
        let i = choose|i: int| 0 <= i < shells.recency.len() && shells.recency[i] == s;
        assert(shells.is_shell(shells.recency[i]));
    }
}

/// A session that ended is nothing to type into, and its agent is forgotten.
pub proof fn law_an_ended_session_is_no_shell(shells: ShellState, session: u128)
    ensures
        !shells.then_closed(session).is_shell(session),
        !shells.then_closed(session).agents.contains_key(session),
        shells.then_closed(session).run_target() != Some(session),
{
    let next = shells.then_closed(session);
    lemma_last_shell(next, next.recency);
}

/// A badge is left by a long command nobody watched, and by no other, and goes when the item is
/// looked at.
pub proof fn law_only_a_slow_unwatched_command_is_badged(
    shells: ShellState,
    session: u128,
    done: Ended,
    watched: bool,
)
    ensures
        !shells.finished.contains_key(session) ==> (shells.then_finished(
            session,
            done,
            watched,
        ).finished.contains_key(session) <==> !watched && done.elapsed >= shells.slow_command),
        !shells.then_seen(session).finished.contains_key(session),
{
}

} // verus!
