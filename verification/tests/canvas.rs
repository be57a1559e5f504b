//! The canvas: its cards, its shells and what it tells the host.
use slopty_ui::agent::{AgentEvent, AgentKind, AgentSource, AgentStatus, BlockReason};
use slopty_ui::canvas::actions::{key_bindings, palette_items, Action, Place};
use slopty_ui::canvas::doc::{
    CanvasDoc, CanvasItem, CanvasOp, ClientKind, ItemKind, Looker, Op, Rect,
};
use slopty_ui::canvas::drag::{Hand, Moved, Resized};
use slopty_ui::canvas::face::{looker_colour, Body, Live, Pill};
use slopty_ui::canvas::frame::{Looks, Settling, Step};
use slopty_ui::canvas::host::{ShellEvent, TermEvent};
use slopty_ui::canvas::msg::{
    Aim, CanvasEvent, CaptureTarget, ClientMsg, Doing, Effect, PaletteEvent, PaletteRun,
    ScreenRequest, TermRequest,
};
use slopty_ui::canvas::screens::WindowInfo;
use slopty_ui::canvas::search::{Line, PickerEvent};
use slopty_ui::canvas::shells::{SessionKind, SessionSummary};
use slopty_ui::canvas::streams::ScreenEvent;
use slopty_ui::canvas::titles::Finished;
use slopty_ui::canvas::view::cards::{note_takes_text, KeyTarget};
use slopty_ui::canvas::view::live::CanvasSync;
use slopty_ui::canvas::view::{CanvasView, Heading, Keeper, ToastKind, POINT_FOR, UNDO_CLOSE};
use slopty_ui::theme::Swatch;
use slopty_ui::time::Duration;

const ME: u128 = 1;
const ANNA: u128 = 6;

fn rect(x: f32, y: f32, w: f32, h: f32) -> Rect {
    Rect { x: x.to_bits(), y: y.to_bits(), w: w.to_bits(), h: h.to_bits() }
}

fn session(id: u128) -> SessionSummary {
    SessionSummary {
        id,
        kind: SessionKind::Terminal,
        title: "zsh".to_owned(),
        cwd: Some("/w/slopty".to_owned()),
        repo: None,
        cols: 80,
        rows: 24,
    }
}

fn card(id: u128, kind: ItemKind<String>, at: Rect, z: u32) -> CanvasItem {
    CanvasItem { id, kind, rect: at, z, sleeping: false, name: None }
}

fn shell_card(id: u128, session: u128, x: f32, y: f32, z: u32) -> CanvasItem {
    card(id, ItemKind::Terminal { session }, rect(x, y, 600.0, 400.0), z)
}

fn note_card(id: u128, text: &str, x: f32, y: f32, z: u32) -> CanvasItem {
    card(id, ItemKind::Note { text: text.to_owned() }, rect(x, y, 300.0, 200.0), z)
}

fn looker(client: u128, name: &str) -> Looker {
    Looker {
        client,
        name: name.to_owned(),
        kind: ClientKind::IPad,
        view: rect(0.0, 0.0, 800.0, 600.0),
    }
}

/// A canvas with these cards, reconciled, nothing left to do.
fn canvas(items: Vec<CanvasItem>, lookers: Vec<Looker>, sessions: Vec<u128>) -> CanvasView {
    let mut view = CanvasView::new(ME, sessions.into_iter().map(session).collect());
    view.apply_sync(CanvasSync::Snapshot, CanvasDoc::new(items, lookers));
    view.take_effects();
    view
}

/// Two shells side by side and a note under them; nothing is left to do.
fn two_shells() -> CanvasView {
    canvas(
        vec![
            shell_card(10, 100, 0.0, 0.0, 1),
            shell_card(11, 101, 700.0, 0.0, 2),
            note_card(12, "# Plan\n- [ ] ship", 0.0, 500.0, 3),
        ],
        Vec::new(),
        vec![100, 101],
    )
}

fn sent(effects: &[Doing]) -> Vec<&ClientMsg<String, Vec<String>>> {
    effects
        .iter()
        .filter_map(|e| match e {
            Effect::Send(msg) => Some(msg),
            _ => None,
        })
        .collect()
}

fn lets_go(effects: &[Doing], session: u128) -> bool {
    sent(effects).iter().any(|m| {
        matches!(m, ClientMsg::Term { session: s, req: TermRequest::Close | TermRequest::Detach }
            if *s == session)
    })
}

fn agent(session: u128, status: AgentStatus<String>) -> AgentEvent {
    AgentEvent {
        session,
        kind: AgentKind { name: "Helper".to_owned(), command: "helper".to_owned() },
        status,
        detail: None,
        attention: false,
        source: AgentSource::Hook,
    }
}

fn live() -> Live<String> {
    Live {
        card: false,
        focused: false,
        editing: false,
        driving: true,
        muted: false,
        has_audio: false,
        cols: 80,
        rows: 24,
        summary: String::new(),
    }
}

fn face(
    view: &CanvasView,
    id: u128,
    live: &Live<String>,
) -> slopty_ui::canvas::face::ItemFace<String, Vec<Pill>> {
    match view.doc().get(id) {
        Some(item) => view.face(item, live),
        None => panic!("the card is here"),
    }
}

#[test]
fn a_card_of_a_live_session_is_attached() {
    let mut view = CanvasView::new(ME, vec![session(100)]);
    let items = vec![shell_card(10, 100, 0.0, 0.0, 1), shell_card(11, 999, 0.0, 0.0, 2)];
    view.apply_sync(CanvasSync::Snapshot, CanvasDoc::new(items, Vec::new()));
    let effects = view.take_effects();
    let asked = sent(&effects);
    assert!(asked.contains(&&ClientMsg::Term {
        session: 100,
        req: TermRequest::Attach { cols: 80, rows: 24 }
    }));
    assert!(view.shells().drawn(100) && !view.shells().drawn(999));
    assert_eq!(view.active_item(), Some(10), "the first shell is active");
    assert_eq!(face(&view, 11, &live()).body, Body::Text("session ended".to_owned()));
}

#[test]
fn a_working_agent_keeps_the_device_awake() {
    let mut view = two_shells();
    view.agent_event(agent(100, AgentStatus::Working), true);
    assert!(view.take_effects().contains(&Effect::Awake(true)));
    view.agent_event(agent(101, AgentStatus::Working), true);
    assert!(!view.take_effects().iter().any(|e| matches!(e, Effect::Awake(_))), "held already");
    view.agent_event(agent(100, AgentStatus::Done), true);
    assert!(!view.take_effects().contains(&Effect::Awake(false)), "the other still works");
    view.session_closed(101);
    assert!(view.take_effects().contains(&Effect::Awake(false)), "and lets go");
}

#[test]
fn a_busy_shell_closes_only_when_confirmed() {
    let mut view = two_shells();
    view.activate(10);
    view.take_effects();
    let closes = |effects: &[Doing]| {
        sent(effects)
            .iter()
            .filter(|m| {
                matches!(m, ClientMsg::Term { session: 100, req: TermRequest::Close })
            })
            .count()
    };
    view.close_item(true, None);
    assert!(view.take_effects().is_empty(), "a running command: the shell asks first");
    assert!(view.doc().has(10), "leaving its bar keeps it");
    assert!(view.has_session(100));
    view.close_item(true, None);
    view.shell_event(100, ShellEvent::CloseConfirmed, true, 50, rect(0.0, 0.0, 1.0, 1.0));
    let effects = view.take_effects();
    assert!(
        sent(&effects).contains(&&ClientMsg::Canvas(CanvasOp::Remove(10))),
        "confirmed, the card leaves the canvas: {effects:?}"
    );
    assert!(!view.doc().has(10));
    assert_eq!(closes(&effects), 0, "the session waits for a change of mind");
    let seq = effects.iter().find_map(|e| match e {
        Effect::CloseTimer { seq, millis } => Some((*seq, *millis)),
        _ => None,
    });
    let Some((seq, millis)) = seq else { panic!("the wait is timed: {effects:?}") };
    assert_eq!(millis, UNDO_CLOSE);
    view.forget_closed(seq);
    assert_eq!(closes(&view.take_effects()), 1, "then the host closes it");
}

#[test]
fn a_toast_outlives_the_clock_of_one_that_was_dropped() {
    let mut view = two_shells();
    view.activate(12);
    view.close_item(false, None);
    let first = view.toast().map(|t| t.seq);
    view.undo_close();
    assert!(view.toast().is_none(), "taken back, the toast goes early");
    view.activate(12);
    view.close_item(false, None);
    let second = view.toast().map(|t| t.seq);
    assert_ne!(first, second);
    view.toast_over(first.unwrap_or_default());
    assert_eq!(view.toast().map(|t| t.seq), second, "the first one's timer is stale");
    view.toast_over(second.unwrap_or_default());
    assert!(view.toast().is_none());
}

#[test]
fn a_second_reconcile_sends_nothing() {
    let mut view = CanvasView::new(ME, vec![session(100), session(101)]);
    let all = || vec![shell_card(10, 100, 0.0, 0.0, 1), shell_card(11, 101, 700.0, 0.0, 2)];
    let told = |effects: &[Doing], attach: bool, id: u128| {
        sent(effects)
            .iter()
            .filter(|m| match m {
                ClientMsg::Term { session, req: TermRequest::Attach { .. } } => {
                    attach && *session == id
                }
                ClientMsg::Term { session, req: TermRequest::Detach } => {
                    !attach && *session == id
                }
                _ => false,
            })
            .count()
    };
    view.apply_sync(CanvasSync::Snapshot, CanvasDoc::new(all(), Vec::new()));
    let effects = view.take_effects();
    assert_eq!((told(&effects, true, 100), told(&effects, true, 101)), (1, 1));
    assert_eq!(told(&effects, false, 100), 0);
    view.reconcile();
    assert!(sent(&view.take_effects()).is_empty());
    let one = CanvasDoc::new(vec![shell_card(10, 100, 0.0, 0.0, 1)], Vec::new());
    view.apply_sync(CanvasSync::Snapshot, one);
    let effects = view.take_effects();
    assert_eq!((told(&effects, false, 100), told(&effects, false, 101)), (0, 1));
    assert_eq!(told(&effects, true, 100), 0);
    view.reconcile();
    assert!(sent(&view.take_effects()).is_empty());
}

#[test]
fn a_closed_shell_can_be_taken_back_for_five_seconds() {
    let mut view = two_shells();
    view.activate(10);
    view.take_effects();
    view.close_item(false, None);
    let effects = view.take_effects();
    assert!(!view.doc().has(10));
    assert!(view.shells().drawn(100), "the view is kept");
    assert!(!lets_go(&effects, 100), "the session runs on: {effects:?}");
    assert!(sent(&effects).contains(&&ClientMsg::Canvas(Op::Remove(10))));
    let seq = effects.iter().find_map(|e| match e {
        Effect::CloseTimer { seq, millis } => {
            assert_eq!(*millis, UNDO_CLOSE);
            Some(*seq)
        }
        _ => None,
    });
    let toast = view.toast_face();
    assert_eq!(toast.as_ref().map(|t| t.text.as_str()), Some("closed zsh"));
    assert_eq!(toast.and_then(|t| t.hint).as_deref(), Some("· take back ⌘Z"));
    assert_eq!(view.frame(), [Step::Back(Keeper::Canvas)], "its card had the keyboard");

    view.undo_close();
    let effects = view.take_effects();
    assert!(!lets_go(&effects, 100));
    assert_eq!(view.doc().get(10).map(|i| i.rect), Some(rect(0.0, 0.0, 600.0, 400.0)));
    assert_eq!(view.active_item(), Some(10));
    assert!(view.toast_face().is_none());
    assert_eq!(view.frame(), [Step::Terminal(100)], "the keyboard is back in it");
    assert_eq!(view.viewport_measured(true), Some(10), "and it comes into view");
    // The timer of the closing that was taken back finds nothing.
    view.forget_closed(seq.unwrap_or_default());
    assert!(!lets_go(&view.take_effects(), 100));

    view.close_item(false, None);
    let seq = view.take_effects().iter().find_map(|e| match e {
        Effect::CloseTimer { seq, .. } => Some(*seq),
        _ => None,
    });
    view.forget_closed(seq.unwrap_or_default());
    let effects = view.take_effects();
    assert!(
        sent(&effects).contains(&&ClientMsg::Term { session: 100, req: TermRequest::Close }),
        "the wait is over: {effects:?}"
    );
    assert!(!view.shells().drawn(100));
    view.undo_close();
    assert!(!view.doc().has(10), "too late");
}

#[test]
fn a_closed_note_comes_back_with_its_text() {
    let mut view = two_shells();
    assert_eq!(view.reconcile_notes(), [12], "it has an editor");
    view.activate(12);
    view.close_item(false, Some("# Plan\n- [ ] ship".to_owned()));
    assert!(!view.doc().has(12));
    view.undo_close();
    assert_eq!(
        view.doc().get(12).map(|i| &i.kind),
        Some(&ItemKind::Note { text: "# Plan\n- [ ] ship".to_owned() })
    );
    assert_eq!(view.active_item(), Some(12));
}

#[test]
fn a_note_closed_before_its_commit_keeps_what_was_typed() {
    let mut view = two_shells();
    view.reconcile_notes();
    view.activate(12);
    view.close_item(false, Some("typed".to_owned()));
    view.take_back(None);
    assert_eq!(
        view.doc().get(12).map(|i| &i.kind),
        Some(&ItemKind::Note { text: "typed".to_owned() })
    );
}

#[test]
fn a_long_command_that_ends_unwatched_badges_its_item() {
    let mut view = two_shells();
    view.activate(11);
    let done = |secs, exit| Finished {
        command: "make".to_owned(),
        exit,
        elapsed: Duration::from_secs(secs),
    };
    view.command_finished(100, done(1, Some(0)));
    assert!(view.shells().finished(100).is_none(), "too short");
    view.command_finished(101, done(60, Some(0)));
    assert!(view.shells().finished(101).is_none(), "watched");
    view.command_finished(100, done(7, Some(0)));
    assert_eq!(
        face(&view, 10, &live()).finished,
        Some(("done 7.0 s".to_owned(), Swatch::Success))
    );
    view.command_finished(100, done(65, Some(1)));
    assert_eq!(
        face(&view, 10, &live()).finished,
        Some(("failed (1) 1 m 05 s".to_owned(), Swatch::Warn))
    );
    view.activate(10);
    assert!(view.shells().finished(100).is_none(), "looking at it clears it");
    view.set_slow_command(Duration::zero());
    view.command_finished(101, done(0, None));
    assert!(view.shells().finished(101).is_some());
}

#[test]
fn the_here_row_names_the_others_and_follows_on_a_click() {
    let mut view =
        canvas(vec![note_card(12, "hi", 0.0, 0.0, 1)], vec![looker(ANNA, "Anna")], Vec::new());
    let here = view.here();
    assert_eq!(here.len(), 1);
    assert_eq!(here[0].label, "follow Anna, iPad");
    assert_eq!(here[0].colour, looker_colour(ANNA));
    assert!(!here[0].following);
    view.follow_pressed(ANNA);
    assert_eq!(view.following(), Some(ANNA));
    assert_eq!(view.take_effects(), [Effect::Fly(Aim::Looker(ANNA))]);
    assert_eq!(view.here()[0].label, "following Anna, iPad");
    assert_eq!(view.here()[0].tag, "following Anna");
    view.follow_pressed(ANNA);
    assert_eq!(view.following(), None, "a second click stops");
}

#[test]
fn following_keeps_up_with_them_until_you_move() {
    let mut view = canvas(Vec::new(), vec![looker(ANNA, "Anna")], Vec::new());
    view.follow(ANNA);
    view.take_effects();
    let docs = || CanvasDoc::new(Vec::new(), vec![looker(ANNA, "Anna")]);
    view.apply_sync(CanvasSync::Presence(ANNA), docs());
    assert!(view.take_effects().contains(&Effect::Fly(Aim::Looker(ANNA))), "keeps up");
    view.apply_sync(CanvasSync::Presence(9), docs());
    assert!(!view.take_effects().contains(&Effect::Fly(Aim::Looker(ANNA))), "not for another");
    view.take_camera();
    view.apply_sync(CanvasSync::Presence(ANNA), docs());
    assert!(!view.take_effects().contains(&Effect::Fly(Aim::Looker(ANNA))), "until you move");
    view.follow(ANNA);
    view.apply_sync(CanvasSync::Presence(ANNA), CanvasDoc::new(Vec::new(), Vec::new()));
    assert_eq!(view.following(), None, "nobody is left to follow");
}

#[test]
fn a_pointing_offers_the_card_until_a_click_or_the_clock() {
    let items = || vec![note_card(12, "# Plan", 0.0, 0.0, 1), note_card(13, "x", 9.0, 9.0, 2)];
    let mut view = canvas(items(), vec![looker(ANNA, "Anna")], Vec::new());
    let point = |client, item| CanvasSync::Pointed { client, name: "Anna".to_owned(), item };
    let doc = || CanvasDoc::new(items(), vec![looker(ANNA, "Anna")]);
    view.apply_sync(point(ME, 12), doc());
    assert!(view.toast().is_none(), "our own pointing is not for us");
    view.apply_sync(point(ANNA, 99), doc());
    assert!(view.toast().is_none(), "nor one at nothing");
    view.apply_sync(point(ANNA, 12), doc());
    let effects = view.take_effects();
    let face = match view.toast_face() {
        Some(face) => face,
        None => panic!("the pointing is offered"),
    };
    assert_eq!(face.text, "Anna points at Plan");
    assert_eq!(face.label, "Anna points at Plan, go there");
    let seq = effects.iter().find_map(|e| match e {
        Effect::ToastTimer { seq, millis } => {
            assert_eq!(*millis, POINT_FOR);
            Some(*seq)
        }
        _ => None,
    });
    view.apply_sync(point(ANNA, 13), doc());
    view.toast_over(seq.unwrap_or_default());
    assert!(view.toast_face().is_some(), "the older clock leaves the newer pointing");
    view.toast_pressed();
    assert_eq!(view.active_item(), Some(13));
    assert!(view.toast_face().is_none());
}

#[test]
fn pointing_the_others_names_the_active_card() {
    let mut alone = two_shells();
    alone.activate(12);
    alone.take_effects();
    alone.point_others();
    assert_eq!(alone.toast_face().map(|t| t.text).as_deref(), Some("nobody else is here"));
    assert!(sent(&alone.take_effects()).is_empty());
    let mut view = canvas(
        vec![note_card(12, "# Plan", 0.0, 0.0, 1)],
        vec![looker(ANNA, "Anna")],
        Vec::new(),
    );
    view.activate(12);
    view.take_effects();
    view.point_others();
    assert_eq!(view.toast_face().map(|t| t.text).as_deref(), Some("pointed Anna at Plan"));
    assert_eq!(sent(&view.take_effects()), [&ClientMsg::Point { item: 12 }]);
}

#[test]
fn a_shell_placed_before_the_first_frame_is_fitted_on_it() {
    let mut view = CanvasView::new(ME, vec![session(100)]);
    let item = shell_card(10, 100, 0.0, 0.0, 1);
    let doc = CanvasDoc::new(vec![item.copy()], Vec::new());
    view.apply_sync(CanvasSync::Delta { by: ME, op: CanvasOp::Upsert(item) }, doc);
    assert!(!view.take_effects().contains(&Effect::Fit(10)), "the viewport is unknown");
    assert_eq!(view.viewport_measured(true), Some(10));
    assert!(view.take_effects().contains(&Effect::Fit(10)));
    assert_eq!(view.viewport_measured(true), None, "once");
    assert!(view.take_effects().is_empty());
}

#[test]
fn cmd_n_asks_the_host_for_a_shell_and_its_echo_places_and_focuses_it() {
    let mut view = two_shells();
    view.activate(10);
    view.take_effects();
    view.new_terminal();
    assert_eq!(
        sent(&view.take_effects()),
        [&ClientMsg::OpenSession {
            cwd: Some("/w/slopty".to_owned()),
            command: Vec::new(),
            title: None
        }],
        "where the active shell is"
    );
    view.session_opened(session(102));
    let item = shell_card(13, 102, 0.0, 900.0, 9);
    let doc = CanvasDoc::new(
        vec![
            shell_card(10, 100, 0.0, 0.0, 1),
            shell_card(11, 101, 700.0, 0.0, 2),
            item.copy(),
        ],
        Vec::new(),
    );
    view.apply_sync(CanvasSync::Delta { by: ME, op: CanvasOp::Upsert(item) }, doc);
    assert_eq!(view.active_item(), Some(13));
    assert_eq!(view.frame(), [Step::Terminal(102)]);
    assert_eq!(view.frame(), Vec::<Step<String>>::new(), "once");
}

#[test]
fn zooming_out_to_cards_hands_the_keyboard_to_the_canvas_and_back() {
    let mut view = two_shells();
    view.activate(10);
    assert_eq!(view.keep_focus_rendered(true, true, false), Some(Step::Back(Keeper::Canvas)));
    assert_eq!(view.keep_focus_rendered(true, false, true), None);
    assert_eq!(view.keep_focus_rendered(false, false, true), Some(Step::Terminal(100)));
    assert_eq!(view.keep_focus_rendered(false, true, false), None);
    view.activate(12);
    assert_eq!(view.keep_focus_rendered(false, false, true), None, "a note takes none");
    let out = Live { card: true, ..live() };
    assert_eq!(face(&view, 10, &out).body, Body::Text("80×24".to_owned()));
    assert_eq!(face(&view, 12, &out).body, Body::Text("# Plan".to_owned()));
}

#[test]
fn the_cards_are_walked_in_reading_order() {
    let mut view = two_shells();
    view.activate(10);
    let mut seen = Vec::new();
    for _ in 0..4 {
        view.step_card(true);
        seen.push(view.active_item().unwrap_or_default());
    }
    assert_eq!(seen, [11, 12, 10, 11], "by rows, and round");
    view.step_card(false);
    assert_eq!(view.active_item(), Some(10), "a step back undoes a step");
    view.step_towards(Some(12));
    assert_eq!(view.active_item(), Some(12));
    view.step_towards(None);
    assert_eq!(view.active_item(), Some(12), "nothing lies that way");
}

#[test]
fn the_palette_follows_another_client() {
    let mut view = canvas(Vec::new(), vec![looker(ANNA, "Anna")], Vec::new());
    assert!(view.open_palette(Some(4)));
    assert!(!view.open_palette(Some(4)), "it is up already");
    let lines = view.palette_lines(&Vec::new(), Vec::new());
    assert!(lines.iter().any(|l| l.run == PaletteRun::Follow(ANNA)), "{lines:?}");
    view.palette_event(
        PaletteEvent::Run(PaletteRun::Follow(ANNA)),
        None,
        &Vec::new(),
        50,
        rect(0.0, 0.0, 1.0, 1.0),
    );
    assert_eq!(view.following(), Some(ANNA));
    assert!(!view.palette_open());
}

#[test]
fn the_command_palette_runs_an_action_by_name() {
    let mut view = canvas(Vec::new(), Vec::new(), vec![100]);
    let at = rect(0.0, 0.0, 600.0, 400.0);
    let says = |view: &mut CanvasView, event| {
        view.palette_event(event, None, &Vec::new(), 50, at);
    };
    assert!(view.open_palette(Some(4)), "the palette is up");
    assert!(view.palette_open());
    assert!(!view.open_palette(Some(5)), "it is up already");
    assert_eq!(view.frame(), [Step::Palette], "the field has the keyboard");
    let offered = |view: &CanvasView| view.palette_lines(&Vec::new(), Vec::new());
    let title = |view: &CanvasView, run: PaletteRun<String>| {
        offered(view).into_iter().find(|l| l.run == run).map(|l| l.title)
    };
    let action = |a| PaletteRun::Action(a);
    assert_eq!(title(&view, action(Action::NewTerminal)).as_deref(), Some("New terminal"));
    assert_eq!(title(&view, action(Action::Find)).as_deref(), Some("Find in terminal or file"));
    let notes = offered(&view).iter().filter(|l| l.title.to_lowercase().contains("note")).count();
    assert_eq!(notes, 1, "one line matches");

    // Esc: nothing runs, the keyboard goes back where it was.
    says(&mut view, PaletteEvent::Changed("zoom".to_owned()));
    says(&mut view, PaletteEvent::Dismiss);
    assert!(!view.palette_open(), "Esc closes it");
    assert_eq!(view.frame(), [Step::Back(Keeper::Element(4))]);
    assert!(view.take_effects().is_empty(), "nothing ran");

    // The chosen line runs, once the palette is gone.
    view.open_palette(Some(4));
    assert_eq!(view.frame(), [Step::Palette]);
    assert_eq!(view.doc().count(), 0);
    says(&mut view, PaletteEvent::Run(action(Action::NewNote)));
    assert!(!view.palette_open(), "gone with the choice");
    assert_eq!(
        view.frame(),
        [Step::Back(Keeper::Element(4)), Step::Dispatch(Action::NewNote)],
        "from where the palette was opened"
    );
    assert_eq!(view.frame(), Vec::<Step<String>>::new(), "once");
    view.new_note(50, at);
    assert_eq!(view.doc().count(), 1, "the action ran");
    view.frame();

    // A session on the canvas is a line too, the first: it reveals and focuses it.
    let mut view = canvas(vec![shell_card(10, 100, 0.0, 0.0, 1)], Vec::new(), vec![100]);
    view.open_palette(None);
    assert_eq!(offered(&view).first().map(|l| &l.run), Some(&PaletteRun::Session(100)));
    says(&mut view, PaletteEvent::Run(PaletteRun::Session(100)));
    assert!(!view.palette_open());
    assert_eq!(view.active_item(), Some(10), "revealed");
    assert_eq!(view.frame(), [Step::Terminal(100)], "and its terminal has the keyboard");

    // A file card is a line too, after the sessions.
    let file = view.open_file("/w/src/main.rs", None, 60, at);
    view.reveal_session(100);
    assert_ne!(view.active_item(), Some(file));
    view.open_palette(None);
    let first: Vec<(String, String)> =
        offered(&view).into_iter().take(2).map(|l| (l.title, l.detail)).collect();
    assert_eq!(
        first,
        [
            ("zsh".to_owned(), String::new()),
            ("main.rs · src".to_owned(), "file".to_owned())
        ]
    );
    says(&mut view, PaletteEvent::Run(PaletteRun::Item(file)));
    assert!(!view.palette_open());
    assert_eq!(view.active_item(), Some(file), "the card revealed");
}

#[test]
fn every_canvas_action_has_a_key_and_a_line() {
    let bindings = key_bindings();
    assert!(bindings.iter().any(|b| b.keys == "cmd-shift-a" && b.action == Action::NextAttention));
    let lines = palette_items();
    for line in lines.iter().filter(|l| !l.terminal) {
        assert!(bindings.iter().any(|b| b.action == line.action), "{line:?}");
    }
    assert!(!Place::Canvas.predicate().is_empty());
}

#[test]
fn a_resting_viewport_is_told_to_the_host_once() {
    let mut looks = Looks::new();
    let view = Some(rect(0.0, 0.0, 800.0, 600.0));
    assert!(looks.seen(view));
    assert!(!looks.seen(view), "the telling is scheduled");
    assert_eq!(looks.due(view), Some(ClientMsg::Look { view }));
    assert!(!looks.seen(view), "and told");
    assert_eq!(looks.due(view), None);
    assert!(looks.seen(Some(rect(5.0, 0.0, 800.0, 600.0))));
    assert_eq!(looks.due(view), None, "back where it was before the telling");
}

#[test]
fn a_zoom_step_is_one_frame_in_motion_then_one_settled() {
    let mut settling = Settling::new();
    let zoom = |z: f32| z.to_bits();
    assert_eq!(settling.frame(zoom(1.0)), None, "the first frame is exact");
    assert_eq!(settling.frame(zoom(1.0)), None);
    let first = settling.frame(zoom(1.1));
    let second = settling.frame(zoom(1.2));
    assert!(first.is_some() && second.is_some() && first != second);
    assert!(!settling.fired(first.unwrap_or_default()), "a later step goes on");
    assert!(settling.fired(second.unwrap_or_default()));
    assert_eq!(settling.frame(zoom(1.2)), None, "the settled frame");
}

#[test]
fn a_blocked_agent_outlines_its_item_in_the_warn_tone_in_both_variants() {
    let mut view = two_shells();
    view.activate(11);
    assert_eq!(face(&view, 10, &live()).border, Swatch::Border);
    assert_eq!(face(&view, 11, &live()).border, Swatch::Accent, "the active one");
    view.agent_event(agent(100, AgentStatus::Blocked(BlockReason::Question)), true);
    let outlined = face(&view, 10, &live());
    assert_eq!(outlined.border, Swatch::Warn);
    assert!(outlined.badge.is_some());
    view.agent_event(agent(100, AgentStatus::Working), true);
    assert_eq!(face(&view, 10, &live()).border, Swatch::Border);
}

#[test]
fn an_agent_seen_without_hooks_gets_the_pill_and_offers_the_hooks() {
    let mut view = two_shells();
    let guessed =
        AgentEvent { source: AgentSource::Process, ..agent(100, AgentStatus::Working) };
    view.agent_event(guessed, true);
    view.take_effects();
    assert!(face(&view, 10, &live()).after.contains(&Pill::Hooks));
    view.install_hooks();
    assert!(sent(&view.take_effects()).contains(&&ClientMsg::InstallHooks));
    assert!(!face(&view, 10, &live()).after.contains(&Pill::Hooks), "offered once");
    view.hooks_offer_failed();
    assert!(face(&view, 10, &live()).after.contains(&Pill::Hooks));
    assert_eq!(Pill::Hooks.look(), ("hooks", "install hooks", Swatch::Warn));
}

#[test]
fn the_title_bar_says_what_the_card_is_and_offers_its_pills() {
    let mut view = canvas(
        vec![
            shell_card(10, 100, 0.0, 0.0, 1),
            card(14, ItemKind::File { path: "/w/src/a.rs".to_owned() }, rect(0.0, 9.0, 9.0, 9.0), 2),
        ],
        vec![looker(ANNA, "Anna")],
        vec![100],
    );
    view.activate(10);
    let mine = face(&view, 10, &live());
    assert_eq!((mine.title.as_str(), mine.heading.as_str()), ("zsh", "terminal zsh"));
    assert_eq!(mine.before, None);
    assert_eq!(mine.after, [Pill::Point], "somebody else is here");
    let theirs = Live { driving: false, ..live() };
    assert_eq!(face(&view, 10, &theirs).before, Some(Pill::Take));
    let file = face(&view, 14, &live());
    assert_eq!(file.heading, "file a.rs · src");
    assert_eq!(file.after, [Pill::Find, Pill::Edit, Pill::Reload]);
    assert_eq!(file.body, Body::Text("reading…".to_owned()));
}

#[test]
fn attention_walks_the_waiting_agents_round() {
    let mut view = two_shells();
    assert_eq!(view.needs_you_count(), 0);
    view.next_attention();
    view.agent_event(agent(101, AgentStatus::Blocked(BlockReason::Question)), true);
    let effects = view.take_effects();
    assert!(effects.contains(&Effect::Emit(CanvasEvent::NeedsYou(1))));
    view.agent_event(agent(100, AgentStatus::Blocked(BlockReason::Elicitation)), true);
    assert_eq!(view.needs_you(), [(10, 100), (11, 101)], "in reading order");
    view.activate(12);
    let mut seen = Vec::new();
    for _ in 0..3 {
        view.next_attention();
        seen.push(view.active_item().unwrap_or_default());
    }
    assert_eq!(seen, [10, 11, 10]);
}

#[test]
fn a_banner_goes_out_when_nobody_looks() {
    let mut view = two_shells();
    let wants = |attention| AgentEvent {
        attention,
        ..agent(
            100,
            AgentStatus::Blocked(BlockReason::Permission { tool: "Bash".to_owned() }),
        )
    };
    view.agent_event(wants(true), false);
    let effects = view.take_effects();
    assert!(effects.contains(&Effect::Banner {
        session: 100,
        title: "Helper wants to use Bash".to_owned(),
        body: String::new()
    }));
    assert!(effects.contains(&Effect::Emit(CanvasEvent::Attention(100))));
    view.agent_event(wants(true), true);
    assert!(!view.take_effects().iter().any(|e| matches!(e, Effect::Banner { .. })));
    view.agent_event(agent(100, AgentStatus::Working), false);
    assert!(view.take_effects().contains(&Effect::Dismiss(100)), "the banner is stale");
    view.notify_program(100, "", "build done", false);
    assert!(view.take_effects().contains(&Effect::Banner {
        session: 100,
        title: "Terminal".to_owned(),
        body: "build done".to_owned()
    }));
    view.notification_response(101);
    assert_eq!(view.active_item(), Some(11));
}

#[test]
fn a_new_canvas_resumes_where_the_last_one_was() {
    let mut view = CanvasView::new(ME, vec![session(100), session(101)]);
    view.resume_at(Some(11));
    let items = vec![shell_card(10, 100, 0.0, 0.0, 2), shell_card(11, 101, 700.0, 0.0, 1)];
    view.apply_sync(CanvasSync::Snapshot, CanvasDoc::new(items, Vec::new()));
    assert_eq!(view.active_item(), Some(11));
    assert_eq!(view.frame(), [Step::Terminal(101)]);
    let effects = view.take_effects();
    assert!(!sent(&effects).iter().any(|m| matches!(m, ClientMsg::Canvas(_))), "nothing is raised");
}

#[test]
fn an_active_card_that_goes_hands_over_to_the_topmost() {
    let mut view = two_shells();
    view.activate(10);
    let rest = vec![shell_card(11, 101, 0.0, 0.0, 5), note_card(12, "x", 0.0, 0.0, 3)];
    view.apply_sync(
        CanvasSync::Delta { by: 9, op: Op::Remove(10) },
        CanvasDoc::new(rest, Vec::new()),
    );
    assert_eq!(view.active_item(), Some(11));
    assert_eq!(view.frame(), [Step::Back(Keeper::Canvas)]);
    assert!(lets_go(&view.take_effects(), 100), "its rows are let go");
}

#[test]
fn find_in_every_card_lists_the_cards_with_hits_and_opens_ones_find_bar() {
    let mut view = canvas(
        vec![
            shell_card(10, 100, 0.0, 0.0, 1),
            note_card(12, "needle\nand a needle", 0.0, 500.0, 2),
            card(14, ItemKind::File { path: "/w/a.rs".to_owned() }, rect(0.0, 900.0, 9.0, 9.0), 3),
        ],
        Vec::new(),
        vec![100],
    );
    let files = vec![(14, vec!["no".to_owned(), "a needle".to_owned()])];
    assert_eq!(view.reconcile_files().len(), 1);
    view.take_effects();
    assert!(view.find_everywhere(&Vec::new(), &Vec::new(), Some(4), &files).is_some());
    assert_eq!(view.needle().map(String::as_str), Some(""));
    view.find_changed(" needle ", &files);
    let effects = view.take_effects();
    assert!(sent(&effects).contains(&&ClientMsg::Term {
        session: 100,
        req: TermRequest::Search { needle: "needle".to_owned(), max: 1, regex: false }
    }));
    let totals = |view: &CanvasView| -> Vec<(String, u32)> {
        view.find_lines()
            .unwrap_or_default()
            .iter()
            .map(|l| (l.title.clone(), l.total))
            .collect()
    };
    assert_eq!(totals(&view), [("needle".to_owned(), 2), ("a.rs · w".to_owned(), 1)]);
    view.find_answered(100, "older", 7);
    assert_eq!(totals(&view).len(), 2, "an answer to another needle");
    view.find_answered(100, "needle", 7);
    assert_eq!(totals(&view).first(), Some(&("zsh".to_owned(), 7)));
    let run = view.hit(100_000).map(|h| h.total);
    assert_eq!(run, None);
    view.palette_event(
        PaletteEvent::Run(PaletteRun::FindIn { session: 100, needle: "needle".to_owned() }),
        None,
        &files,
        50,
        rect(0.0, 0.0, 1.0, 1.0),
    );
    assert_eq!(
        view.frame(),
        [Step::Terminal(100), Step::FindIn(100, "needle".to_owned())]
    );
    assert_eq!(view.last_find(), "needle");
    assert_eq!(view.needle(), None, "the find went with the palette");
}

#[test]
fn a_find_in_every_card_starts_from_the_active_cards_own() {
    let mut view = canvas(
        vec![
            shell_card(10, 100, 0.0, 0.0, 1),
            shell_card(11, 101, 700.0, 0.0, 2),
            note_card(12, "note", 0.0, 500.0, 3),
            card(14, ItemKind::File { path: "/w/a.rs".to_owned() }, rect(0.0, 900.0, 9.0, 9.0), 4),
        ],
        Vec::new(),
        vec![100, 101],
    );
    let shells = vec![(101, "other".to_owned()), (100, "shell".to_owned())];
    let bars = vec![(14, "file".to_owned()), (12, "note".to_owned())];
    let bare = canvas(Vec::new(), Vec::new(), Vec::new());
    assert_eq!(bare.active_needle(&shells, &bars), "", "no card is active");
    view.activate(10);
    assert_eq!(view.active_needle(&shells, &bars), "shell");
    assert_eq!(view.active_needle(&Vec::new(), &bars), "", "its bar is closed");
    view.activate(14);
    assert_eq!(view.active_needle(&shells, &bars), "", "the card has no view yet");
    view.reconcile_files();
    assert_eq!(view.active_needle(&shells, &bars), "file");
    view.activate(12);
    assert_eq!(view.active_needle(&shells, &bars), "", "a note has no find bar");
    view.activate(11);
    let seed = view.find_everywhere(&shells, &bars, None, &Vec::new());
    assert_eq!(seed.as_deref(), Some("other"));
    assert_eq!(view.needle().map(String::as_str), Some("other"));
    assert_eq!(view.find_everywhere(&shells, &bars, None, &Vec::new()), None, "it is up");
}

#[test]
fn a_path_typed_into_the_palette_opens_a_file_card() {
    let mut view = two_shells();
    view.activate(10);
    view.take_effects();
    let at = rect(0.0, 900.0, 500.0, 400.0);
    view.palette_event(
        PaletteEvent::Run(PaletteRun::OpenFile { path: "src/main.rs".to_owned(), line: Some(7) }),
        None,
        &Vec::new(),
        50,
        at,
    );
    let path = ItemKind::File { path: "/w/slopty/src/main.rs".to_owned() };
    assert_eq!(view.doc().get(50).map(|i| &i.kind), Some(&path), "in the active shell's directory");
    assert_eq!(view.active_item(), Some(50));
    let made = view.reconcile_files();
    assert_eq!(made.iter().map(|f| (f.id, f.line)).collect::<Vec<_>>(), [(50, Some(7))]);
    let effects = view.take_effects();
    assert!(sent(&effects).contains(&&ClientMsg::WatchFiles {
        paths: vec!["/w/slopty/src/main.rs".to_owned()]
    }));
    assert_eq!(view.line_target(), Some(50));
    assert!(view.file_card_active());
    // The same path again is the same card, read again.
    assert_eq!(view.open_file("/w/slopty/src/main.rs", None, 51, at), 50);
    assert!(sent(&view.take_effects()).contains(&&ClientMsg::ReadFile {
        path: "/w/slopty/src/main.rs".to_owned()
    }));
    view.open_palette(None);
    assert_eq!(view.line_target(), None, "an overlay has the keys");
}

#[test]
fn a_directory_in_the_palette_opens_a_shell_or_an_agent_there() {
    let mut view = two_shells();
    let run = |view: &mut CanvasView, run| {
        view.palette_event(
            PaletteEvent::Run(run),
            None,
            &Vec::new(),
            50,
            rect(0.0, 0.0, 1.0, 1.0),
        );
        view.take_effects()
    };
    let effects = run(&mut view, PaletteRun::OpenShell { cwd: "/x".to_owned() });
    assert_eq!(
        sent(&effects),
        [&ClientMsg::OpenSession { cwd: Some("/x".to_owned()), command: Vec::new(), title: None }]
    );
    let effects = run(&mut view, PaletteRun::OpenAgent {
        cwd: "/x".to_owned(),
        command: "helper".to_owned(),
    });
    assert_eq!(
        sent(&effects),
        [&ClientMsg::OpenSession {
            cwd: Some("/x".to_owned()),
            command: vec!["helper".to_owned()],
            title: Some("helper".to_owned())
        }]
    );
    view.palette_changed(Some("main".to_owned()));
    assert_eq!(
        sent(&view.take_effects()),
        [&ClientMsg::FindFiles { root: "/w/slopty".to_owned(), query: "main".to_owned() }]
    );
}

#[test]
fn a_card_is_named_from_its_title_bar() {
    let mut view = two_shells();
    assert!(view.start_rename(10, Some(4)).is_some());
    assert_eq!(view.renaming().map(|r| r.id), Some(10));
    assert_eq!(view.frame(), [Step::Rename]);
    view.finish_rename(true, true, "  build box ");
    let titled = |view: &CanvasView, id| view.doc().get(id).map(|i| view.card_title(i));
    assert_eq!(titled(&view, 10).as_deref(), Some("build box"));
    assert_eq!(view.frame(), [Step::Back(Keeper::Element(4))]);
    view.start_rename(10, None);
    view.finish_rename(false, false, "never");
    assert_eq!(titled(&view, 10).as_deref(), Some("build box"), "not kept");
    view.start_rename(10, None);
    view.finish_rename(true, true, "   ");
    assert_eq!(titled(&view, 10).as_deref(), Some("zsh"), "a blank name clears it");
    assert_eq!(titled(&view, 11).as_deref(), Some("zsh"));
    assert!(view.start_rename(999, None).is_none());
}

#[test]
fn a_notes_fenced_block_runs_in_the_canvas_shell() {
    let mut view = two_shells();
    view.activate(10);
    view.activate(12);
    view.take_effects();
    view.run_in_shell("make test".to_owned());
    let effects = view.take_effects();
    assert!(effects.contains(&Effect::RunText { session: 100, text: "make test".to_owned() }));
    assert_eq!(view.active_item(), Some(10), "the shell last used comes into view");
    let mut none = canvas(vec![note_card(12, "x", 0.0, 0.0, 1)], Vec::new(), Vec::new());
    none.run_in_shell("make".to_owned());
    assert!(!none.take_effects().iter().any(|e| matches!(e, Effect::RunText { .. })));
}

#[test]
fn the_palette_reruns_a_recent_command() {
    let mut view = two_shells();
    view.activate(11);
    view.take_effects();
    let recent = vec!["make".to_owned(), "ls".to_owned()];
    let lines = view.palette_lines(&recent, Vec::new());
    let rerun = PaletteRun::Rerun { session: 101, command: "make".to_owned() };
    assert!(lines.iter().any(|l| l.run == rerun), "{lines:?}");
    view.palette_event(
        PaletteEvent::Run(rerun),
        None,
        &Vec::new(),
        50,
        rect(0.0, 0.0, 1.0, 1.0),
    );
    assert!(view
        .take_effects()
        .contains(&Effect::RunText { session: 101, text: "make".to_owned() }));
}

#[test]
fn a_block_saved_as_a_note_lands_beside_the_shell() {
    let mut view = two_shells();
    let at = rect(650.0, 0.0, 300.0, 200.0);
    view.note_beside("$ make\nok".to_owned(), 60, at);
    assert_eq!(
        view.doc().get(60).map(|i| (&i.kind, i.rect)),
        Some((&ItemKind::Note { text: "$ make\nok".to_owned() }, at))
    );
    view.new_note(61, at);
    assert_eq!(view.active_item(), Some(61));
    view.reconcile_notes();
    assert_eq!(view.focus_note(), Some(61), "the caret goes into it");
    assert_eq!(view.focus_note(), None);
    view.commit_note(61, "hello".to_owned());
    assert_eq!(
        view.doc().get(61).map(|i| &i.kind),
        Some(&ItemKind::Note { text: "hello".to_owned() })
    );
    assert!(!note_takes_text(true, "a", "b"), "nothing is pulled from under the caret");
}

#[test]
fn a_shells_relative_path_opens_a_card_in_its_directory() {
    let view = two_shells();
    assert_eq!(view.absolute_in_session(100, "a/b.rs"), "/w/slopty/a/b.rs");
    assert_eq!(view.absolute_in_session(100, "/a/b.rs"), "/a/b.rs");
    assert_eq!(view.absolute_in_session(999, "a/b.rs"), "a/b.rs");
}

#[test]
fn a_file_cards_edit_pill_opens_the_editor_at_the_line_read() {
    let mut view = two_shells();
    view.activate(10);
    let card = view.open_file("/w/a.rs", None, 50, rect(0.0, 0.0, 9.0, 9.0));
    view.take_effects();
    view.edit_file(card, "vi +3 /w/a.rs".to_owned());
    assert!(view
        .take_effects()
        .contains(&Effect::RunText { session: 100, text: "vi +3 /w/a.rs".to_owned() }));
}

#[test]
fn streams_are_asked_for_shown_and_closed() {
    let window = card(20, ItemKind::Window { window: 5 }, rect(0.0, 0.0, 600.0, 400.0), 1);
    let mut view = CanvasView::new(ME, Vec::new());
    view.apply_sync(CanvasSync::Snapshot, CanvasDoc::new(vec![window], Vec::new()));
    let effects = view.take_effects();
    let target = CaptureTarget::Window(5);
    assert!(sent(&effects).contains(&&ClientMsg::Screen(ScreenRequest::Open { target })));
    assert!(sent(&effects).contains(&&ClientMsg::Screen(ScreenRequest::List)), "it has no title");
    let at = rect(0.0, 0.0, 9.0, 9.0);
    let windows = vec![WindowInfo { id: 5, title: "Mail".to_owned(), app: "Mail".to_owned() }];
    view.screen_event(ScreenEvent::Listing { windows, displays: vec![2] }, false, 30, at);
    assert_eq!(view.doc().get(20).map(|i| view.card_title(i)).as_deref(), Some("Mail"));
    assert_eq!(face(&view, 20, &live()).body, Body::Text("opening…".to_owned()));
    view.screen_event(ScreenEvent::Opened { stream: 8, target }, false, 30, at);
    assert_eq!(view.take_effects(), [Effect::ShowStream { item: 20, stream: 8 }]);
    assert_eq!(face(&view, 20, &live()).body, Body::View);
    view.screen_event(ScreenEvent::Opened { stream: 9, target }, false, 30, at);
    assert_eq!(
        sent(&view.take_effects()),
        [&ClientMsg::Screen(ScreenRequest::Close { stream: 9 })],
        "nobody asked for it"
    );
    let size = |width| ScreenEvent::Geometry { stream: 8, width, height: 10 };
    assert_eq!(view.screen_event(size(20), false, 30, at), [20]);
    assert_eq!(view.screen_event(size(0), false, 30, at), Vec::<u128>::new());
    let copied = || ScreenEvent::Clipboard { text: "x".to_owned() };
    assert_eq!(view.screen_event(copied(), true, 30, at), [20]);
    assert!(view.take_effects().is_empty(), "the same text is here already");
    view.screen_event(copied(), false, 30, at);
    assert_eq!(view.take_effects(), [Effect::Copy("x".to_owned())]);
    view.activate(20);
    assert_eq!(view.active_key_target(), Some(KeyTarget::Screen(20)));
    view.take_effects();
    view.toggle_mute();
    assert_eq!(view.take_effects(), [Effect::ToggleMute(20)]);
    let muted = Live { muted: true, ..live() };
    assert_eq!(face(&view, 20, &muted).before, Some(Pill::Mute { muted: true }));
    view.screen_event(ScreenEvent::Closed { stream: 8 }, false, 30, at);
    assert!(view.screens().on(20).is_none());
}

#[test]
fn a_window_or_a_display_is_added_from_a_listing() {
    let mut view = two_shells();
    let at = rect(0.0, 0.0, 9.0, 9.0);
    view.add_first_display();
    assert_eq!(sent(&view.take_effects()), [&ClientMsg::Screen(ScreenRequest::List)]);
    let listing = || ScreenEvent::Listing { windows: Vec::new(), displays: vec![2, 3] };
    view.screen_event(listing(), false, 30, at);
    assert_eq!(view.doc().get(30).map(|i| &i.kind), Some(&ItemKind::Display { display: 2 }));
    assert!(!view.picker_open());
    view.add_window();
    view.screen_event(listing(), false, 31, at);
    assert!(view.picker_open(), "the listing was for the picker");
    assert!(!view.doc().has(31));
    view.picker_event(
        PickerEvent::Pick { target: CaptureTarget::Window(7), title: "Mail".to_owned() },
        31,
        at,
    );
    assert_eq!(view.doc().get(31).map(|i| view.card_title(i)).as_deref(), Some("Mail"));
    assert!(!view.picker_open());
    view.add_window();
    view.screen_event(listing(), false, 32, at);
    view.picker_event(PickerEvent::Jump(100), 32, at);
    assert_eq!(view.active_item(), Some(10));
}

#[test]
fn a_dragged_card_is_told_at_its_end() {
    let mut view = two_shells();
    let mut hand = Hand::new();
    hand.begin_move(&mut view, 10);
    assert_eq!(hand.card(), Some(10));
    assert_eq!(view.active_item(), Some(10));
    assert!(view.draws(10, hand.card(), false) && !view.draws(11, hand.card(), false));
    view.take_effects();
    let way = rect(3.3, 4.4, 600.0, 400.0);
    assert_eq!(hand.mouse_move(&mut view, true, true, way), Moved::Placed);
    assert_eq!(view.doc().get(10).map(|i| i.rect), Some(way));
    assert!(view.take_effects().is_empty(), "nothing is sent on the way");
    let end = rect(0.0, 8.0, 600.0, 400.0);
    assert_eq!(hand.mouse_up(&mut view, end), None);
    assert_eq!(
        sent(&view.take_effects()),
        [&ClientMsg::Canvas(Op::Place { id: 10, rect: end })]
    );
    assert_eq!(hand.card(), None);
    hand.begin_move(&mut view, 999);
    assert_eq!(hand.drag, None, "there is no such card");
    hand.begin_pan(false);
    assert_eq!(hand.mouse_move(&mut view, true, true, way), Moved::Pan);
    assert_eq!(hand.mouse_move(&mut view, false, true, way), Moved::Nothing, "let go elsewhere");
    assert_eq!(hand.mouse_move(&mut view, true, true, way), Moved::Nothing);
    hand.begin_pan(true);
    assert_eq!(hand.mouse_move(&mut view, true, true, way), Moved::Scrub);
}

#[test]
fn the_grip_asks_the_host_to_resize_the_window() {
    let window = card(20, ItemKind::Window { window: 5 }, rect(0.0, 0.0, 600.0, 400.0), 1);
    let mut view = canvas(vec![window], Vec::new(), Vec::new());
    let target = CaptureTarget::Window(5);
    view.screen_event(
        ScreenEvent::Opened { stream: 8, target },
        false,
        30,
        rect(0.0, 0.0, 1.0, 1.0),
    );
    let mut hand = Hand::new();
    hand.begin_resize(&mut view, 20);
    view.take_effects();
    let end = rect(0.0, 0.0, 1200.0, 800.0);
    let start = rect(0.0, 0.0, 600.0, 400.0);
    assert_eq!(
        hand.mouse_up(&mut view, end),
        Some(Resized { stream: 8, start, rect: end })
    );
    view.take_effects();
    view.resize_remote_window(8, (1600, 1200), (800, 600));
    assert_eq!(
        sent(&view.take_effects()),
        [&ClientMsg::Screen(ScreenRequest::Resize { stream: 8, width: 1600, height: 1200 })]
    );
    view.resize_remote_window(8, (800, 600), (800, 600));
    assert!(view.take_effects().is_empty(), "it has that size");
    view.place(20, start);
    assert_eq!(view.doc().get(20).map(|i| i.rect), Some(start));
}

#[test]
fn arrange_gathers_the_shells_of_a_repository() {
    let mut view = two_shells();
    view.session_moved(100, "/w/a/src".to_owned(), Some("/w/a".to_owned()));
    let cards = view.arrangeable();
    let of = |id| cards.iter().find(|c| c.id == id);
    assert_eq!(of(10).and_then(|c| c.repo.as_deref()), Some("/w/a"));
    assert_eq!(of(11).and_then(|c| c.cwd.as_deref()), Some("/w/slopty"));
    view.take_effects();
    let there = rect(0.0, 40.0, 600.0, 400.0);
    let stays = rect(700.0, 0.0, 600.0, 400.0);
    let heading =
        Heading { label: "a".to_owned(), rect: rect(0.0, 0.0, 9.0, 9.0), items: vec![10] };
    view.arranged(&vec![(10, there), (11, stays)], vec![heading]);
    let effects = view.take_effects();
    assert_eq!(
        sent(&effects),
        [&ClientMsg::Canvas(Op::Place { id: 10, rect: there })],
        "a card that stays is not told"
    );
    assert!(effects.contains(&Effect::Fly(Aim::Arranged)));
    assert_eq!(view.headings().len(), 1);
}

#[test]
fn an_emptied_repository_loses_its_heading() {
    let mut view = two_shells();
    let heading = |items| Heading {
        label: "a".to_owned(),
        rect: rect(0.0, 0.0, 9.0, 9.0),
        items,
    };
    view.arranged(&Vec::new(), vec![heading(vec![10]), heading(vec![10, 11])]);
    view.activate(10);
    view.close_item(false, None);
    assert_eq!(view.headings().len(), 1);
    assert_eq!(view.headings()[0].items, [10, 11]);
}

#[test]
fn the_camera_flies_where_it_is_sent() {
    let mut view = two_shells();
    view.activate(12);
    view.take_effects();
    view.fit_all();
    view.zoom_to_item();
    assert_eq!(
        view.take_effects(),
        [Effect::Fly(Aim::All), Effect::Fly(Aim::Item(12))]
    );
    view.zoom_reset();
    assert_eq!(view.take_effects(), [Effect::Fly(Aim::Centre(12))]);
    view.fit_when_painted();
    assert_eq!(view.viewport_measured(true), None);
    assert_eq!(view.take_effects(), [Effect::Fly(Aim::All)]);
}

#[test]
fn a_terminal_is_taken_over() {
    let mut view = two_shells();
    let at = rect(0.0, 0.0, 300.0, 300.0);
    view.take_over(11, Some(at));
    let effects = view.take_effects();
    assert!(effects.contains(&Effect::Drive(101)));
    assert_eq!(view.doc().get(11).map(|i| i.rect), Some(at));
    assert_eq!(view.frame(), [Step::Terminal(101)]);
    view.take_over(12, None);
    assert!(view.take_effects().is_empty(), "a note is no terminal");
}

#[test]
fn the_overview_shows_every_card_and_every_other_client() {
    let mut view = canvas(
        vec![note_card(12, "x", 0.0, 0.0, 1), note_card(13, "y", 9.0, 0.0, 2)],
        vec![looker(ANNA, "Anna")],
        Vec::new(),
    );
    view.activate(13);
    let blocks = view.minimap();
    let shown: Vec<_> = blocks.iter().map(|b| (b.shade.swatch, b.outline)).collect();
    assert_eq!(
        shown,
        [(Swatch::TextMuted, false), (Swatch::Accent, false), (looker_colour(ANNA), true)]
    );
    assert_eq!(view.empty_text(), None);
    let empty = canvas(Vec::new(), Vec::new(), Vec::new());
    assert!(empty.empty_text().is_some_and(|t| t.contains("⌘T")));
    let colours = [0, 1, 2, 3].map(looker_colour);
    assert_eq!(colours, [Swatch::Accent, Swatch::Success, Swatch::Warn, Swatch::Error]);
}

#[test]
fn a_change_is_about_one_card_and_its_echo_changes_nothing() {
    let mut doc = CanvasDoc::new(
        vec![note_card(12, "x", 0.0, 0.0, 1), note_card(13, "y", 9.0, 0.0, 2)],
        Vec::new(),
    );
    let at = rect(1.0, 2.0, 3.0, 4.0);
    for _ in 0..2 {
        doc.apply_op(Op::Place { id: 12, rect: at });
        assert_eq!(doc.get(12).map(|i| i.rect), Some(at));
        assert_eq!(doc.get(13).map(|i| i.rect), Some(rect(9.0, 0.0, 300.0, 200.0)));
    }
    assert!(doc.is_top(13));
    doc.apply_op(Op::Raise(12));
    assert!(doc.is_top(12));
    assert_eq!(doc.by_z(), [13, 12]);
    for _ in 0..2 {
        doc.apply_op(Op::Remove(12));
        assert!(!doc.has(12) && doc.has(13));
    }
    doc.apply_op(Op::Upsert(note_card(13, "z", 0.0, 0.0, 7)));
    assert_eq!(doc.count(), 1);
    assert_eq!(doc.top_z(), 7);
    assert_eq!(doc.reading_order(), [13]);
}

#[test]
fn the_colours_go_to_every_shell() {
    let mut view = two_shells();
    view.colors_changed();
    let effects = view.take_effects();
    for session in [100, 101] {
        assert!(sent(&effects).contains(&&ClientMsg::Term { session, req: TermRequest::Colors }));
    }
    view.toggle_stats();
    assert_eq!(view.take_effects(), [Effect::Stats(true)]);
    view.terminal_titled(100, Some("vim".to_owned()));
    assert_eq!(view.shells().title(100), "vim");
    assert_eq!(view.find_in_active(), Some(Step::FindIn(100, String::new())));
    view.activate(12);
    assert_eq!(view.find_in_active(), None, "a note has no find bar");
}

#[test]
fn a_shells_view_reports_to_the_canvas() {
    let mut view = two_shells();
    let at = rect(0.0, 900.0, 300.0, 200.0);
    let mut hears = |event| {
        view.shell_event(100, event, false, 70, at);
        view.take_effects()
    };
    assert_eq!(hears(ShellEvent::Bell), [Effect::Emit(CanvasEvent::Bell(100))]);
    assert_eq!(
        hears(ShellEvent::Notice("no".to_owned())),
        [Effect::Emit(CanvasEvent::Notice("no".to_owned()))]
    );
    assert_eq!(
        sent(&hears(ShellEvent::Exited)),
        [&ClientMsg::Term { session: 100, req: TermRequest::Close }]
    );
    let asked =
        hears(ShellEvent::Notification { title: "Tests".to_owned(), body: "green".to_owned() });
    assert!(asked.contains(&Effect::Banner {
        session: 100,
        title: "Tests".to_owned(),
        body: "green".to_owned()
    }));
    hears(ShellEvent::Cwd { path: "/w/b".to_owned(), repo: None });
    hears(ShellEvent::Title(Some("vim".to_owned())));
    hears(ShellEvent::ViewFile { path: "c.rs".to_owned(), line: None });
    assert_eq!(view.terminal_title(100), "vim");
    assert_eq!(
        view.doc().get(70).map(|i| &i.kind),
        Some(&ItemKind::File { path: "/w/b/c.rs".to_owned() })
    );
    view.reconcile_files();
    assert_eq!(view.file_read("/w/b/c.rs"), [70]);
    assert_eq!(view.file_read("/w/b/d.rs"), Vec::<u128>::new());
    view.shell_event(100, ShellEvent::CloseConfirmed, false, 71, at);
    assert!(!view.doc().has(10) && view.has_session(100));
    view.frame();
    view.find_closed();
    assert_eq!(view.frame(), [Step::Back(Keeper::Canvas)]);
}

#[test]
fn a_shells_answer_reaches_the_find() {
    let mut view = two_shells();
    view.find_everywhere(&Vec::new(), &Vec::new(), None, &Vec::new());
    view.find_changed("needle", &Vec::new());
    let answer = |needle: &str| TermEvent::Matches { needle: needle.to_owned(), total: 3 };
    assert!(view.term_event(100, answer("needle")));
    assert_eq!(view.hit(10).map(|h| h.total), Some(3));
    assert!(view.term_event(101, answer("other")));
    assert!(view.hit(11).is_none());
    assert!(!view.term_event(999, TermEvent::Other), "there is no view for it");
}

#[test]
fn pills_do_what_they_say() {
    let mut view = canvas(
        vec![
            shell_card(10, 100, 0.0, 0.0, 1),
            card(14, ItemKind::File { path: "/w/a.rs".to_owned() }, rect(0.0, 9.0, 9.0, 9.0), 2),
        ],
        vec![looker(ANNA, "Anna")],
        vec![100],
    );
    view.reconcile_files();
    view.take_effects();
    assert!(!view.pill_pressed(14, Pill::Reload, None, String::new()));
    assert_eq!(
        sent(&view.take_effects()),
        [&ClientMsg::ReadFile { path: "/w/a.rs".to_owned() }]
    );
    assert!(view.pill_pressed(14, Pill::Find, None, String::new()), "its find bar opens");
    assert_eq!(view.active_item(), Some(14));
    view.pill_pressed(14, Pill::Edit, None, "vi /w/a.rs".to_owned());
    assert!(view
        .take_effects()
        .contains(&Effect::RunText { session: 100, text: "vi /w/a.rs".to_owned() }));
    view.pill_pressed(10, Pill::Point, None, String::new());
    assert!(sent(&view.take_effects()).contains(&&ClientMsg::Point { item: 10 }));
    view.pill_pressed(10, Pill::Take, None, String::new());
    assert!(view.take_effects().contains(&Effect::Drive(100)));
    view.pill_pressed(10, Pill::Hooks, None, String::new());
    assert_eq!(sent(&view.take_effects()), [&ClientMsg::InstallHooks]);
    view.pill_pressed(10, Pill::Mute { muted: false }, None, String::new());
    assert!(view.take_effects().is_empty(), "a shell has no sound");
}

#[test]
fn a_title_bar_moves_its_card_and_a_double_click_names_it() {
    let mut view = two_shells();
    let mut hand = Hand::new();
    assert_eq!(hand.title_pressed(&mut view, 10, 1, None), None);
    assert_eq!(hand.card(), Some(10));
    hand.mouse_up(&mut view, rect(0.0, 0.0, 600.0, 400.0));
    let field = hand.title_pressed(&mut view, 10, 2, Some(4));
    assert_eq!(field, Some(("zsh".to_owned(), String::new())));
    assert_eq!(hand.card(), None);
    assert!(view.leave_rename());
    assert!(!view.leave_rename());
    assert_eq!(view.frame(), [Step::Rename, Step::Back(Keeper::Element(4))][1..]);
    assert_eq!(view.rename_item(None), Some(("zsh".to_owned(), String::new())));
    view.leave_rename();
    view.next_card();
    assert_eq!(view.active_item(), Some(11));
    view.prev_card();
    assert_eq!(view.active_item(), Some(10));
}

#[test]
fn the_apps_own_lines_come_last() {
    let view = two_shells();
    let own = Line {
        title: "Settings".to_owned(),
        detail: String::new(),
        run: PaletteRun::Action(Action::OpenPalette),
    };
    let plain = view.palette_lines(&Vec::new(), Vec::new());
    let lines = view.palette_lines(&Vec::new(), vec![own]);
    assert_eq!(lines.len(), plain.len() + 1);
    assert_eq!(lines.last().map(|l| l.title.as_str()), Some("Settings"));
    assert_eq!(view.session_rows().len(), 2);
}

#[test]
fn an_agent_or_a_command_opens_in_the_active_shells_directory() {
    let mut view = two_shells();
    view.activate(10);
    view.take_effects();
    view.new_agent("helper".to_owned());
    assert_eq!(
        sent(&view.take_effects()),
        [&ClientMsg::OpenSession {
            cwd: Some("/w/slopty".to_owned()),
            command: vec!["helper".to_owned()],
            title: Some("helper".to_owned())
        }]
    );
    view.open_command(vec!["htop".to_owned(), "-d".to_owned()]);
    assert_eq!(
        sent(&view.take_effects()),
        [&ClientMsg::OpenSession {
            cwd: Some("/w/slopty".to_owned()),
            command: vec!["htop".to_owned(), "-d".to_owned()],
            title: Some("htop".to_owned())
        }]
    );
    view.open_command(Vec::new());
    assert_eq!(
        sent(&view.take_effects()),
        [&ClientMsg::OpenSession {
            cwd: Some("/w/slopty".to_owned()),
            command: Vec::new(),
            title: None
        }]
    );
}

#[test]
fn two_cards_of_one_window_share_one_request() {
    let window = |id, x| card(id, ItemKind::Window { window: 5 }, rect(x, 0.0, 60.0, 40.0), 1);
    let mut view = CanvasView::new(ME, Vec::new());
    let both = CanvasDoc::new(vec![window(20, 0.0), window(21, 100.0)], Vec::new());
    view.apply_sync(CanvasSync::Snapshot, both);
    let target = CaptureTarget::Window(5);
    let opens = |effects: &[Doing]| {
        sent(effects)
            .iter()
            .filter(|m| matches!(m, ClientMsg::Screen(ScreenRequest::Open { .. })))
            .count()
    };
    assert_eq!(opens(&view.take_effects()), 1, "the second waits for the first");
    let at = rect(0.0, 0.0, 9.0, 9.0);
    view.screen_event(ScreenEvent::Opened { stream: 8, target }, false, 30, at);
    assert_eq!(view.take_effects(), [Effect::ShowStream { item: 20, stream: 8 }]);
    view.reconcile();
    assert_eq!(opens(&view.take_effects()), 1, "now the second asks for its own");
    view.screen_event(ScreenEvent::Opened { stream: 9, target }, false, 30, at);
    assert_eq!(view.take_effects(), [Effect::ShowStream { item: 21, stream: 9 }]);
    view.reconcile();
    assert_eq!(opens(&view.take_effects()), 0);
}

#[test]
fn a_blank_find_asks_no_one() {
    let mut view = two_shells();
    view.find_changed("ship", &Vec::new());
    view.take_effects();
    view.find_changed("   ", &Vec::new());
    assert!(view.take_effects().is_empty());
    assert_eq!(view.find_lines().map(|l| l.len()), Some(0));
    assert_eq!(view.last_find(), "ship");
}

#[test]
fn a_shells_view_is_told_what_its_agent_does() {
    let mut view = two_shells();
    let told = |effects: &[Doing]| -> Vec<AgentStatus<String>> {
        effects
            .iter()
            .filter_map(|e| match e {
                Effect::AgentStatus { session: 100, status } => Some(status.copy()),
                _ => None,
            })
            .collect()
    };
    let tool = || AgentStatus::Tool { tool: "Bash".to_owned() };
    view.agent_event(agent(100, tool()), true);
    assert_eq!(told(&view.take_effects()), [tool()]);
    view.agent_event(agent(100, AgentStatus::Absent), true);
    assert_eq!(told(&view.take_effects()), [AgentStatus::Absent]);
    let mut view = CanvasView::new(ME, vec![session(100)]);
    view.agent_event(agent(100, tool()), true);
    assert!(told(&view.take_effects()).is_empty(), "nothing shows it yet");
    let doc = CanvasDoc::new(vec![shell_card(10, 100, 0.0, 0.0, 1)], Vec::new());
    view.apply_sync(CanvasSync::Snapshot, doc);
    assert_eq!(told(&view.take_effects()), [tool()], "a view made later starts with it");
}
