//! What the host says of a coding agent, and how chrome puts it into words.
use vstd::prelude::*;

use crate::text::{chars_of, copy_of, held};
use crate::theme::Swatch;

verus! {

/// Why an agent waits.
#[derive(Debug, PartialEq, Eq)]
pub enum BlockReason<T> {
    /// It asks to use a tool.
    Permission { tool: T },
    /// It asked a question.
    Question,
    /// It asked for input.
    Elicitation,
    /// It sits at its prompt.
    IdlePrompt,
}

/// What an agent is doing.
#[derive(Debug, PartialEq, Eq)]
pub enum AgentStatus<T> {
    /// There is no agent.
    Absent,
    Idle,
    Working,
    /// It runs a tool.
    Tool { tool: T },
    Blocked(BlockReason<T>),
    /// Its turn ended.
    Done,
}

/// How the host knows.
#[derive(Clone, Copy, PartialEq, Eq, Structural, Debug)]
pub enum AgentSource {
    /// The agent's own hooks said so.
    Hook,
    /// Its process was seen.
    Process,
    /// Its title was read.
    Title,
}

/// Which agent it is.
#[derive(Debug, PartialEq, Eq)]
pub struct AgentKind<T> {
    /// What it is called in a sentence.
    pub name: T,
    /// The command that runs it.
    pub command: T,
}

/// An agent's state in a session.
#[derive(Debug, PartialEq, Eq)]
pub struct Agent<T> {
    pub session: u128,
    pub kind: AgentKind<T>,
    pub status: AgentStatus<T>,
    /// What it is about, in a few words.
    pub detail: Option<T>,
    /// The human should look.
    pub attention: bool,
    pub source: AgentSource,
}

/// An agent's state as the host reports it.
pub type AgentEvent = Agent<String>;

impl DeepView for BlockReason<String> {
    type V = BlockReason<Seq<char>>;

    open spec fn deep_view(&self) -> BlockReason<Seq<char>> {
        match *self {
            BlockReason::Permission { tool } => BlockReason::Permission { tool: tool@ },
            BlockReason::Question => BlockReason::Question,
            BlockReason::Elicitation => BlockReason::Elicitation,
            BlockReason::IdlePrompt => BlockReason::IdlePrompt,
        }
    }
}

impl DeepView for AgentStatus<String> {
    type V = AgentStatus<Seq<char>>;

    open spec fn deep_view(&self) -> AgentStatus<Seq<char>> {
        match *self {
            AgentStatus::Absent => AgentStatus::Absent,
            AgentStatus::Idle => AgentStatus::Idle,
            AgentStatus::Working => AgentStatus::Working,
            AgentStatus::Tool { tool } => AgentStatus::Tool { tool: tool@ },
            AgentStatus::Blocked(why) => AgentStatus::Blocked(why.deep_view()),
            AgentStatus::Done => AgentStatus::Done,
        }
    }
}

impl BlockReason<String> {
    /// A copy.
    pub fn copy(&self) -> (r: BlockReason<String>)
        ensures
            r.deep_view() == self.deep_view(),
    {
        match self {
            BlockReason::Permission { tool } => BlockReason::Permission { tool: tool.clone() },
            BlockReason::Question => BlockReason::Question,
            BlockReason::Elicitation => BlockReason::Elicitation,
            BlockReason::IdlePrompt => BlockReason::IdlePrompt,
        }
    }
}

impl AgentStatus<String> {
    /// A copy.
    pub fn copy(&self) -> (r: AgentStatus<String>)
        ensures
            r.deep_view() == self.deep_view(),
    {
        match self {
            AgentStatus::Absent => AgentStatus::Absent,
            AgentStatus::Idle => AgentStatus::Idle,
            AgentStatus::Working => AgentStatus::Working,
            AgentStatus::Tool { tool } => AgentStatus::Tool { tool: tool.clone() },
            AgentStatus::Blocked(why) => AgentStatus::Blocked(why.copy()),
            AgentStatus::Done => AgentStatus::Done,
        }
    }
}

impl DeepView for AgentKind<String> {
    type V = AgentKind<Seq<char>>;

    open spec fn deep_view(&self) -> AgentKind<Seq<char>> {
        AgentKind { name: self.name@, command: self.command@ }
    }
}

impl DeepView for Agent<String> {
    type V = Agent<Seq<char>>;

    open spec fn deep_view(&self) -> Agent<Seq<char>> {
        Agent {
            session: self.session,
            kind: self.kind.deep_view(),
            status: self.status.deep_view(),
            detail: held(self.detail),
            attention: self.attention,
            source: self.source,
        }
    }
}

/// The agent waits on the human; an idle prompt is not worth an outline.
pub open spec fn waits(agent: Agent<Seq<char>>) -> bool {
    agent.status matches AgentStatus::Blocked(why) && !(why is IdlePrompt)
}

/// The agent is busy on its own.
pub open spec fn works(agent: Agent<Seq<char>>) -> bool {
    agent.status is Working || agent.status is Tool
}

/// Whether the agent is waiting on the human (an idle prompt is not worth an outline).
pub fn needs_human(agent: &AgentEvent) -> (r: bool)
    ensures
        r == waits(agent.deep_view()),
{
    match &agent.status {
        AgentStatus::Blocked(BlockReason::IdlePrompt) => false,
        AgentStatus::Blocked(_) => true,
        _ => false,
    }
}

/// Whether the agent is busy on its own.
pub fn is_working(agent: &AgentEvent) -> (r: bool)
    ensures
        r == works(agent.deep_view()),
{
    match &agent.status {
        AgentStatus::Working => true,
        AgentStatus::Tool { .. } => true,
        _ => false,
    }
}

/// The detail where there is any, else `other`.
pub open spec fn detail_or(agent: Agent<Seq<char>>, other: Seq<char>) -> Seq<char> {
    match agent.detail {
        Some(d) => if d.len() > 0 {
            d
        } else {
            other
        },
        None => other,
    }
}

/// One short line for an agent's state.
pub open spec fn status_line(agent: Agent<Seq<char>>) -> Seq<char> {
    match agent.status {
        AgentStatus::Absent => Seq::empty(),
        AgentStatus::Idle => agent.kind.command,
        AgentStatus::Working => detail_or(agent, "working"@),
        AgentStatus::Tool { tool } => detail_or(agent, tool),
        AgentStatus::Blocked(BlockReason::Permission { tool }) => "allow? "@ + detail_or(
            agent,
            tool,
        ),
        AgentStatus::Blocked(BlockReason::Question) => "asking: "@ + detail_or(
            agent,
            "a question"@,
        ),
        AgentStatus::Blocked(BlockReason::Elicitation) => "needs input: "@ + detail_or(
            agent,
            "an answer"@,
        ),
        AgentStatus::Blocked(BlockReason::IdlePrompt) => "idle"@,
        AgentStatus::Done => "done: "@ + detail_or(agent, "turn finished"@),
    }
}

/// `lead` and the agent's detail, or `other` where it has none.
fn led(lead: &str, agent: &AgentEvent, other: &str) -> (r: String)
    ensures
        r@ == lead@ + detail_or(agent.deep_view(), other@),
{
    let mut out = lead.to_owned();
    match &agent.detail {
        Some(d) => if chars_of(d.as_str()).len() > 0 {
            out.append(d.as_str());
        } else {
            out.append(other);
        },
        None => out.append(other),
    }
    out
}

/// One short line for an agent's state: the badge text, the picker's status column.
pub fn agent_status_text(agent: &AgentEvent) -> (r: String)
    ensures
        r@ == status_line(agent.deep_view()),
{
    proof {
        reveal_strlit("");
        assert(""@ == Seq::<char>::empty());
        assert forall|s: Seq<char>| #[trigger] (""@ + s) == s by {}
    }
    match &agent.status {
        AgentStatus::Absent => "".to_owned(),
        AgentStatus::Idle => agent.kind.command.clone(),
        AgentStatus::Working => led("", agent, "working"),
        AgentStatus::Tool { tool } => led("", agent, tool.as_str()),
        AgentStatus::Blocked(BlockReason::Permission { tool }) => led(
            "allow? ",
            agent,
            tool.as_str(),
        ),
        AgentStatus::Blocked(BlockReason::Question) => led("asking: ", agent, "a question"),
        AgentStatus::Blocked(BlockReason::Elicitation) => led(
            "needs input: ",
            agent,
            "an answer",
        ),
        AgentStatus::Blocked(BlockReason::IdlePrompt) => "idle".to_owned(),
        AgentStatus::Done => led("done: ", agent, "turn finished"),
    }
}

/// What a banner says an agent wants.
pub open spec fn wish(agent: Agent<Seq<char>>) -> Seq<char> {
    match agent.status {
        AgentStatus::Blocked(BlockReason::Permission { tool }) => if tool.len() == 0 {
            agent.kind.name + " needs permission"@
        } else {
            agent.kind.name + " wants to use "@ + tool
        },
        AgentStatus::Blocked(BlockReason::Question) => agent.kind.name + " has a question"@,
        AgentStatus::Blocked(BlockReason::Elicitation) => agent.kind.name + " needs input"@,
        AgentStatus::Done => agent.kind.name + " finished"@,
        _ => status_line(agent),
    }
}

/// The agent's name and what is said of it.
fn said_of(agent: &AgentEvent, what: &str) -> (r: String)
    ensures
        r@ == agent.deep_view().kind.name + what@,
{
    let mut out = agent.kind.name.clone();
    out.append(what);
    out
}

/// What a banner says an agent wants.
pub fn banner_text(agent: &AgentEvent) -> (r: String)
    ensures
        r@ == wish(agent.deep_view()),
{
    match &agent.status {
        AgentStatus::Blocked(BlockReason::Permission { tool }) => {
            if chars_of(tool.as_str()).len() == 0 {
                said_of(agent, " needs permission")
            } else {
                let mut out = said_of(agent, " wants to use ");
                out.append(tool.as_str());
                out
            }
        },
        AgentStatus::Blocked(BlockReason::Question) => said_of(agent, " has a question"),
        AgentStatus::Blocked(BlockReason::Elicitation) => said_of(agent, " needs input"),
        AgentStatus::Done => said_of(agent, " finished"),
        _ => agent_status_text(agent),
    }
}

/// The tone of an agent's badge; `None` where there is no agent.
pub open spec fn tone_of(agent: Agent<Seq<char>>) -> Option<Swatch> {
    match agent.status {
        AgentStatus::Absent => None,
        AgentStatus::Idle => Some(Swatch::TextMuted),
        AgentStatus::Blocked(BlockReason::IdlePrompt) => Some(Swatch::TextMuted),
        AgentStatus::Working => Some(Swatch::Accent),
        AgentStatus::Tool { .. } => Some(Swatch::Accent),
        AgentStatus::Blocked(_) => Some(Swatch::Warn),
        AgentStatus::Done => Some(Swatch::Success),
    }
}

/// The agent pill in a terminal's title bar.
#[derive(Debug, PartialEq, Eq)]
pub struct Badge<T> {
    pub label: T,
    pub tone: Swatch,
    /// A "go" button beside it reveals the terminal, where the agent's own prompt takes the
    /// answer.
    pub go: bool,
}

impl DeepView for Badge<String> {
    type V = Badge<Seq<char>>;

    open spec fn deep_view(&self) -> Badge<Seq<char>> {
        Badge { label: self.label@, tone: self.tone, go: self.go }
    }
}

/// The agent pill: its line, its tone, and a way to the terminal while it waits on the human.
pub open spec fn badge_of(agent: Agent<Seq<char>>) -> Option<Badge<Seq<char>>> {
    match tone_of(agent) {
        Some(tone) => Some(Badge { label: status_line(agent), tone, go: waits(agent) }),
        None => None,
    }
}

/// The agent pill in a terminal's title bar: a coloured dot and a short line, plus the way to the
/// terminal when the agent is waiting on the human. `None` where there is no agent.
pub fn agent_badge(agent: &AgentEvent) -> (r: Option<Badge<String>>)
    ensures
        r.deep_view() == badge_of(agent.deep_view()),
{
    let tone = match &agent.status {
        AgentStatus::Absent => {
            return None;
        },
        AgentStatus::Idle => Swatch::TextMuted,
        AgentStatus::Blocked(BlockReason::IdlePrompt) => Swatch::TextMuted,
        AgentStatus::Working => Swatch::Accent,
        AgentStatus::Tool { .. } => Swatch::Accent,
        AgentStatus::Blocked(_) => Swatch::Warn,
        AgentStatus::Done => Swatch::Success,
    };
    Some(Badge { label: agent_status_text(agent), tone, go: needs_human(agent) })
}

/// The body of a banner: the detail, nothing where there is none.
pub open spec fn banner_body(agent: Agent<Seq<char>>) -> Seq<char> {
    match agent.detail {
        Some(d) => d,
        None => Seq::empty(),
    }
}

/// The body of a banner: the detail, nothing where there is none.
pub fn body_text(agent: &AgentEvent) -> (r: String)
    ensures
        r@ == banner_body(agent.deep_view()),
{
    match copy_of(&agent.detail) {
        Some(d) => d,
        None => String::new(),
    }
}

/// A badge asks for the human exactly where its tone warns.
pub proof fn law_a_badge_warns_when_it_offers_a_way(agent: Agent<Seq<char>>)
    ensures
        badge_of(agent) is None <==> agent.status is Absent,
        badge_of(agent) matches Some(b) ==> (b.go <==> b.tone == Swatch::Warn),
        badge_of(agent) matches Some(b) ==> (b.tone == Swatch::Accent <==> works(agent)),
{
}

} // verus!
