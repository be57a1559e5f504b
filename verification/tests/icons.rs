//! Marks and the clock that turns them.
use std::collections::HashSet;

use slopty_ui::agent::{AgentEvent, AgentKind, AgentSource, AgentStatus, BlockReason};
use slopty_ui::icons::{
    spin_step, status_mark, until_next_step, Assets, IconName, SpinClock, Status, SPIN_STEP,
    SPIN_STEPS,
};
use slopty_ui::theme::{Colours, Rgb, Surfaces, Variant};
use slopty_ui::time::{Duration, Instant};

const ALL: [Status; 6] = [
    Status::Idle,
    Status::Working,
    Status::NeedsYou,
    Status::Done,
    Status::Failed,
    Status::Away,
];

#[test]
fn each_status_has_its_own_icon_and_every_icon_is_embedded() {
    let icons: HashSet<_> = ALL.iter().map(|s| s.icon()).collect();
    assert_eq!(icons.len(), ALL.len());
}

#[test]
fn an_unknown_path_loads_nothing() {
    assert_eq!(Assets.load(None, None), None);
    assert_eq!(Assets.load(None, Some(vec![7])), Some(vec![7]), "the bundle still does");
    assert_eq!(Assets.load(Some(vec![1]), Some(vec![7])), Some(vec![1]), "the chosen one leads");
}

#[test]
fn every_asset_is_listed_once() {
    let chosen = vec!["icons/a.svg".to_owned(), "icons/b.svg".to_owned()];
    let bundle = vec!["icons/b.svg".to_owned(), "icons/c.svg".to_owned()];
    assert_eq!(Assets.list(&chosen, &bundle), ["icons/a.svg", "icons/b.svg", "icons/c.svg"]);
}

/// Twelve steps make one turn a second, each held a twelfth of a second, and the timer
/// always waits for the next step's start. Under Reduce Motion the mark stands on its
/// first step whatever the time.
#[test]
fn the_working_mark_steps_twelve_times_a_turn_and_stands_under_reduce_motion() {
    let ms = Duration::from_millis;
    assert_eq!(spin_step(ms(0), false), 0);
    assert_eq!(spin_step(ms(80), false), 0, "still the first step");
    assert_eq!(spin_step(ms(90), false), 1);
    assert_eq!(spin_step(ms(990), false), 11);
    assert_eq!(spin_step(ms(1_000), false), 0, "one turn a second");
    assert_eq!(spin_step(ms(2_500), false), 6);
    for at in [0, 90, 500, 990, 12_345] {
        assert_eq!(spin_step(ms(at), true), 0, "Reduce Motion at {at} ms");
    }
    let step = Duration::from_nanos(SPIN_STEP);
    assert_eq!(until_next_step(ms(0)), step, "on a step's start, a whole step away");
    assert_eq!(until_next_step(ms(80)).as_nanos(), step.as_nanos() - ms(80).as_nanos());
    let next = Duration::of_nanos(ms(90).as_nanos() + until_next_step(ms(90)).as_nanos());
    assert_eq!(spin_step(next, false), 2, "the timer lands on the next step");
    let turn = step.as_nanos() * u128::from(SPIN_STEPS);
    assert!(ms(1_000).as_nanos() - turn < Duration::from_micros(1).as_nanos(), "{turn}");
}

fn agent(status: AgentStatus<String>) -> AgentEvent {
    AgentEvent {
        session: 1,
        kind: AgentKind { name: "Helper".to_owned(), command: "helper".to_owned() },
        status,
        detail: None,
        attention: false,
        source: AgentSource::Hook,
    }
}

#[test]
fn an_agents_state_is_a_status() {
    assert_eq!(Status::of_agent(&agent(AgentStatus::Absent)), None);
    assert_eq!(Status::of_agent(&agent(AgentStatus::Working)), Some(Status::Working));
    let asks = agent(AgentStatus::Blocked(BlockReason::Question));
    assert_eq!(Status::of_agent(&asks), Some(Status::NeedsYou));
    assert_eq!(Status::of_agent(&agent(AgentStatus::Done)), Some(Status::Done));
}

#[test]
fn a_status_mark_is_an_image_named_by_its_status() {
    assert_eq!(status_mark(None), None);
    let mark = status_mark(Some(Status::Working));
    assert_eq!(mark.map(|m| (m.icon, m.turns)), Some((IconName::LoaderCircle, true)));
    let labels: HashSet<_> = ALL.iter().map(|s| s.label()).collect();
    assert_eq!(labels.len(), ALL.len());
    for s in ALL {
        assert_eq!(status_mark(Some(s)).map(|m| m.icon), Some(s.icon()));
    }
}

#[test]
fn a_working_mark_wakes_its_view_only_while_it_shows() {
    let at = |ms| Instant::at(Duration::from_millis(ms));
    let mut clock = SpinClock::new(at(1_000), false);
    assert_eq!(clock.step(at(1_090), false), 1);
    assert!(clock.painted(7, at(1_000), false).is_some(), "the first mark arms the timer");
    assert_eq!(clock.painted(8, at(1_000), false), None, "one timer for all of them");
    assert_eq!(clock.fired(), [7, 8]);
    assert_eq!(clock.fired(), Vec::<u64>::new(), "nothing was painted since");
    assert_eq!(clock.painted(7, at(1_100), true), None, "a still mark needs no timer");
    assert_eq!(clock.step(at(1_500), true), 0);
}

#[test]
fn a_status_takes_its_tone_from_the_theme() {
    let grey = |n| Rgb { r: n, g: n, b: n };
    let theme = Colours {
        variant: Variant::Dark,
        surfaces: Surfaces {
            canvas: grey(0),
            panel: grey(1),
            raised: grey(2),
            overlay: grey(3),
            border: grey(4),
            text: grey(5),
            text_secondary: grey(6),
            text_muted: grey(7),
            accent: grey(8),
            accent_fg: grey(9),
            success: grey(10),
            warn: grey(11),
            error: grey(12),
        },
    };
    assert_eq!(Status::Failed.tone(&theme), grey(12));
    assert_eq!(Status::NeedsYou.tone(&theme), grey(11));
}
