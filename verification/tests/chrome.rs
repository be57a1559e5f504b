//! The chrome around the cards: overlays, labels, fonts and what a screen reader reads.
use slopty_ui::a11y::{cycle, key_name, tree, Built, Step};
use slopty_ui::agent::{
    agent_badge, agent_status_text, banner_text, body_text, is_working, needs_human, AgentEvent,
    AgentKind, AgentSource, AgentStatus, BlockReason,
};
use slopty_ui::chrome_text::{cut, ChromeCache};
use slopty_ui::fonts::{terminal_fallbacks, terminal_font, MONO_FAMILY, SYMBOLS_FAMILY};
use slopty_ui::keys::{Keystroke, Modifiers};
use slopty_ui::kit::{button, sync, ButtonKind, Hint, Overlay, FIND_PLACEHOLDER};
use slopty_ui::theme::{Swatch, Variant};

/// The two overlay sizes differ in both directions, and a list is the smaller of them: a
/// size that is nearly another size is a size nobody chose.
#[test]
fn the_overlay_sizes_are_two_and_they_differ() {
    let (lw, lh) = Overlay::List.bounds();
    let (ew, eh) = Overlay::Editor.bounds();
    assert!(lw < ew && lh < eh, "a list is the smaller overlay");
    assert!(ew - lw >= 40 && eh - lh >= 40, "far enough apart to tell apart");
}

#[test]
fn both_variants_take_the_same_tokens() {
    assert!(sync(Variant::Dark).dark && !sync(Variant::Light).dark);
    assert_eq!(sync(Variant::Dark).colors, sync(Variant::Light).colors);
    assert_eq!(FIND_PLACEHOLDER, "Find");
}

#[test]
fn buttons_are_told_apart() {
    let kinds =
        [ButtonKind::Primary, ButtonKind::Secondary, ButtonKind::Quiet, ButtonKind::Link];
    for (i, a) in kinds.iter().enumerate() {
        for b in kinds.iter().skip(i + 1) {
            assert_ne!(button(*a), button(*b), "{a:?} {b:?}");
        }
    }
    let hint = Hint::new("Open".to_owned(), "⌘O".to_owned());
    assert_eq!((hint.what.as_str(), hint.key.as_str()), ("Open", "⌘O"));
}

fn tab(shift: bool, control: bool) -> Keystroke {
    Keystroke {
        modifiers: Modifiers { shift, control, ..Modifiers::default() },
        key: "tab".to_owned(),
        key_char: None,
    }
}

#[test]
fn tab_walks_the_ring_both_ways() {
    assert_eq!(cycle(&tab(false, false)), Some(Step::Next));
    assert_eq!(cycle(&tab(true, false)), Some(Step::Prev));
    let a = Keystroke {
        modifiers: Modifiers::default(),
        key: "a".to_owned(),
        key_char: Some("a".to_owned()),
    };
    assert_eq!(cycle(&a), None);
}

#[test]
fn a_key_cap_is_read_by_its_name() {
    assert_ne!(key_name("⌘"), "");
    assert_ne!(key_name("⌘"), key_name("⌥"));
}

#[test]
fn a_tree_is_read_from_its_root() {
    let node = |id: u64, role: &str, label: &str, children: Vec<u64>| Built {
        id,
        role: role.to_owned(),
        label: Some(label.to_owned()),
        value: None,
        bounds: [0; 4],
        children,
    };
    let nodes = vec![
        node(1, "window", "root", vec![3, 2]),
        node(2, "button", "last", Vec::new()),
        node(3, "button", "first", Vec::new()),
        node(9, "button", "stray", Vec::new()),
    ];
    let read = tree(&nodes, 1, 2);
    let labels: Vec<_> = read.iter().filter_map(|n| n.label.as_deref()).collect();
    assert_eq!(labels, ["root", "first", "last"]);
    assert_eq!(read.iter().filter(|n| n.focused).count(), 1);
    assert!(read.iter().any(|n| n.focused && n.is_a("button", Some("last"))));
    assert!(!read.iter().any(|n| n.is_a("button", Some("stray"))));
}

#[test]
fn a_label_in_use_is_shaped_once_and_dropped_out_of_use() {
    let mut cache = ChromeCache::new();
    assert!(cache.use_label(5, Some(1)), "shaped the first time");
    assert!(!cache.use_label(5, Some(1)));
    assert!(!cache.use_label(5, Some(2)), "and kept for the next frame");
    for frame in 3..20 {
        cache.sweep(Some(frame));
    }
    assert!(cache.use_label(5, Some(20)), "shaped again once it was out of use");
}

#[test]
fn the_cut_is_the_longest_that_fits() {
    assert_eq!(cut(true, &vec![true, true]), None, "what fits whole is not cut");
    assert_eq!(cut(false, &vec![true, true, false]), Some(1));
    assert_eq!(cut(false, &vec![true, true, true]), Some(2));
}

#[test]
fn a_terminals_font_falls_back_to_symbols() {
    let fallbacks = terminal_fallbacks();
    assert!(fallbacks.iter().any(|f| f == SYMBOLS_FAMILY), "{fallbacks:?}");
    let font = terminal_font("Menlo", true, false, true);
    assert_eq!((font.family.as_str(), font.bold, font.italic), ("Menlo", true, false));
    assert_eq!(font.fallbacks, fallbacks);
    assert!(font.ligatures);
    assert!(!MONO_FAMILY.is_empty());
}

fn agent(status: AgentStatus<String>, detail: Option<&str>) -> AgentEvent {
    AgentEvent {
        session: 1,
        kind: AgentKind { name: "Helper".to_owned(), command: "helper".to_owned() },
        status,
        detail: detail.map(str::to_owned),
        attention: true,
        source: AgentSource::Hook,
    }
}

#[test]
fn a_banner_says_what_the_agent_wants() {
    let wants = |tool: &str| {
        agent(AgentStatus::Blocked(BlockReason::Permission { tool: tool.to_owned() }), None)
    };
    assert_eq!(banner_text(&wants("Bash")), "Helper wants to use Bash");
    assert_eq!(banner_text(&wants("")), "Helper needs permission");
    let question = agent(AgentStatus::Blocked(BlockReason::Question), Some("which one?"));
    assert_eq!(banner_text(&question), "Helper has a question");
    assert_eq!(body_text(&question), "which one?");
    let input = agent(AgentStatus::Blocked(BlockReason::Elicitation), None);
    assert_eq!(banner_text(&input), "Helper needs input");
    assert_eq!(body_text(&input), "");
    assert_eq!(banner_text(&agent(AgentStatus::Done, None)), "Helper finished");
    assert_eq!(agent_status_text(&agent(AgentStatus::Idle, None)), "helper");
    assert_eq!(agent_status_text(&agent(AgentStatus::Working, None)), "working");
    assert_eq!(agent_status_text(&agent(AgentStatus::Working, Some("tests"))), "tests");
}

#[test]
fn an_idle_prompt_is_nothing_to_wait_for() {
    let idle = agent(AgentStatus::Blocked(BlockReason::IdlePrompt), None);
    assert!(!needs_human(&idle));
    let question = agent(AgentStatus::Blocked(BlockReason::Question), None);
    assert!(needs_human(&question));
    assert!(is_working(&agent(AgentStatus::Working, None)));
    assert!(!is_working(&question));
    let badge = agent_badge(&question);
    assert_eq!(badge.map(|b| b.tone), Some(Swatch::Warn));
    assert_eq!(agent_badge(&agent(AgentStatus::Absent, None)), None);
}
