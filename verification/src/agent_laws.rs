//! What chrome promises to say of a coding agent.
use vstd::prelude::*;

use crate::agent::{
    badge_of, banner_body, status_line, waits, wish, works, Agent, AgentStatus, BlockReason,
};
use crate::theme::Swatch;

verus! {

/// The agent tells what it is about.
pub open spec fn tells(agent: Agent<Seq<char>>) -> bool {
    agent.detail is Some && agent.detail->0.len() > 0
}

/// The line for an agent that asks for something says what it asks for: its own words where it has
/// any, behind what kind of asking it is. One that is busy says what with, one that ended its turn
/// what came of it.
pub proof fn law_an_agents_line_is_in_its_own_words(agent: Agent<Seq<char>>)
    ensures
        tells(agent) ==> match agent.status {
            AgentStatus::Working => status_line(agent) == agent.detail->0,
            AgentStatus::Tool { .. } => status_line(agent) == agent.detail->0,
            AgentStatus::Blocked(BlockReason::Permission { .. }) => status_line(agent) == "allow? "@
                + agent.detail->0,
            AgentStatus::Blocked(BlockReason::Question) => status_line(agent) == "asking: "@
                + agent.detail->0,
            AgentStatus::Blocked(BlockReason::Elicitation) => status_line(agent) == "needs input: "@
                + agent.detail->0,
            AgentStatus::Done => status_line(agent) == "done: "@ + agent.detail->0,
            _ => true,
        },
        !tells(agent) ==> match agent.status {
            AgentStatus::Working => status_line(agent) == "working"@,
            AgentStatus::Tool { tool } => status_line(agent) == tool,
            AgentStatus::Blocked(BlockReason::Permission { tool }) => status_line(agent)
                == "allow? "@ + tool,
            AgentStatus::Blocked(BlockReason::Question) => status_line(agent)
                == "asking: a question"@,
            AgentStatus::Blocked(BlockReason::Elicitation) => status_line(agent)
                == "needs input: an answer"@,
            AgentStatus::Done => status_line(agent) == "done: turn finished"@,
            _ => true,
        },
        agent.status is Absent ==> status_line(agent).len() == 0,
        agent.status is Idle ==> status_line(agent) == agent.kind.command,
        agent.status matches AgentStatus::Blocked(BlockReason::IdlePrompt) ==> status_line(agent)
            == "idle"@,
{
    reveal_strlit("asking: ");
    reveal_strlit("a question");
    reveal_strlit("asking: a question");
    reveal_strlit("needs input: ");
    reveal_strlit("an answer");
    reveal_strlit("needs input: an answer");
    reveal_strlit("done: ");
    reveal_strlit("turn finished");
    reveal_strlit("done: turn finished");
    assert("asking: "@ + "a question"@ =~= "asking: a question"@);
    assert("needs input: "@ + "an answer"@ =~= "needs input: an answer"@);
    assert("done: "@ + "turn finished"@ =~= "done: turn finished"@);
}

/// An agent waits on the human exactly while it is blocked on something, which sitting at its prompt
/// is not; it works while it thinks or runs a tool; and it never does both.
pub proof fn law_an_agent_waits_or_works(agent: Agent<Seq<char>>)
    ensures
        waits(agent) <==> match agent.status {
            AgentStatus::Blocked(BlockReason::Permission { .. }) => true,
            AgentStatus::Blocked(BlockReason::Question) => true,
            AgentStatus::Blocked(BlockReason::Elicitation) => true,
            _ => false,
        },
        works(agent) <==> match agent.status {
            AgentStatus::Working => true,
            AgentStatus::Tool { .. } => true,
            _ => false,
        },
        !(waits(agent) && works(agent)),
{
}

/// A badge's tone tells how things stand: it warns exactly while the agent waits on the human, and
/// only then offers the way there; it is lit while the agent works, green once it is done and muted
/// while it rests. There is a badge exactly while there is an agent.
pub proof fn law_a_badges_tone_tells_how_things_stand(agent: Agent<Seq<char>>)
    ensures
        badge_of(agent) is None <==> agent.status is Absent,
        badge_of(agent) matches Some(badge) ==> {
            &&& badge.label == status_line(agent)
            &&& badge.go == waits(agent)
            &&& badge.tone == Swatch::Warn <==> waits(agent)
            &&& badge.tone == Swatch::Accent <==> works(agent)
            &&& badge.tone == Swatch::Success <==> agent.status is Done
            &&& badge.tone == Swatch::TextMuted <==> (agent.status is Idle || agent.status matches
                AgentStatus::Blocked(BlockReason::IdlePrompt))
        },
{
}

/// A banner about an agent that asks for something or is done starts with its name and says what it
/// wants; its body is the agent's own words.
pub proof fn law_a_banner_names_the_agent(agent: Agent<Seq<char>>)
    ensures
        agent.status matches AgentStatus::Blocked(BlockReason::Permission { tool }) ==> wish(agent)
            == agent.kind.name + (if tool.len() > 0 {
            " wants to use "@ + tool
        } else {
            " needs permission"@
        }),
        agent.status matches AgentStatus::Blocked(BlockReason::Question) ==> wish(agent)
            == agent.kind.name + " has a question"@,
        agent.status matches AgentStatus::Blocked(BlockReason::Elicitation) ==> wish(agent)
            == agent.kind.name + " needs input"@,
        agent.status is Done ==> wish(agent) == agent.kind.name + " finished"@,
        agent.detail matches Some(words) ==> banner_body(agent) == words,
        agent.detail is None ==> banner_body(agent).len() == 0,
{
    if let AgentStatus::Blocked(BlockReason::Permission { tool }) = agent.status {
        assert(agent.kind.name + " wants to use "@ + tool =~= agent.kind.name + (" wants to use "@
            + tool));
    }
}

} // verus!
