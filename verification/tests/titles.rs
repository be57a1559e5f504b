//! What cards, banners and badges are called.
use slopty_ui::canvas::doc::{CanvasItem, ClientKind, ItemKind, Rect};
use slopty_ui::canvas::titles::{
    banner_title, device_name, file_title, kind_name, note_progress, note_summary, note_title,
    program_banner, took_label, Finished, NOTE_SUMMARY_CHARS, NOTE_TITLE_CHARS,
};
use slopty_ui::time::Duration;

#[test]
fn a_programs_banner_has_a_title_even_when_the_protocol_gave_none() {
    assert_eq!(
        program_banner(None, "", "build done"),
        ("Terminal".to_owned(), "build done".to_owned())
    );
    assert_eq!(
        program_banner(Some("build box"), "Tests", " all green\n"),
        ("build box · Tests".to_owned(), "all green".to_owned())
    );
}

#[test]
fn a_named_card_leads_its_banner() {
    assert_eq!(banner_title(None, "The agent wants to use Bash"), "The agent wants to use Bash");
    assert_eq!(
        banner_title(Some("build box"), "The agent wants to use Bash"),
        "build box · The agent wants to use Bash"
    );
}

#[test]
fn a_note_is_titled_by_its_first_line() {
    assert_eq!(note_title(""), "note");
    assert_eq!(note_title("\n  \n# Plan for today\n- x"), "Plan for today");
    assert_eq!(note_title("- first item"), "first item");
    assert_eq!(
        note_title("- [ ] ship\n- [x] test\n- [X] tag"),
        "ship · 2/3",
        "a checklist counts"
    );
    assert_eq!(note_title("# Plan\n\n- [ ] ship"), "Plan · 0/1");
    assert_eq!(note_progress("no tasks"), None);
    let long = "a".repeat(NOTE_TITLE_CHARS + 5);
    assert_eq!(note_title(&long), format!("{}…", "a".repeat(NOTE_TITLE_CHARS)));
}

#[test]
fn a_finished_badge_says_the_status_and_the_time() {
    let done =
        |exit, secs| Finished { command: "x".into(), exit, elapsed: Duration::from_secs(secs) };
    assert_eq!(done(Some(0), 7).label(), "done 7.0 s");
    assert_eq!(done(None, 7).label(), "done 7.0 s");
    assert_eq!(done(Some(1), 65).label(), "failed (1) 1 m 05 s", "as the row caption reads");
}

#[test]
fn a_file_card_is_titled_by_its_name_and_directory() {
    assert_eq!(file_title("/w/slopty/src/main.rs"), "main.rs · src");
    assert_eq!(file_title("/main.rs"), "main.rs");
    assert_eq!(file_title("main.rs"), "main.rs");
}

#[test]
fn progress_counts_the_ticked_tasks_of_all() {
    assert_eq!(note_progress("- [ ] ship\n- [x] test\n- [X] tag"), Some((2, 3)));
    assert_eq!(note_progress("- [ ] one"), Some((0, 1)));
}

#[test]
fn a_summary_is_the_first_line_that_says_something() {
    assert_eq!(note_summary("\n\nhello\nthere"), "hello");
    let long = "b".repeat(NOTE_SUMMARY_CHARS + 1);
    assert_eq!(note_summary(&long).chars().take(NOTE_SUMMARY_CHARS).count(), NOTE_SUMMARY_CHARS);
    assert_eq!(note_summary(""), "empty note");
}

#[test]
fn a_span_reads_in_tenths_and_then_in_minutes() {
    assert_eq!(took_label(Duration::from_millis(1_250)), "1.2 s");
    assert_eq!(took_label(Duration::from_secs(59)), "59.0 s");
    assert_eq!(took_label(Duration::from_secs(60)), "1 m 00 s");
}

#[test]
fn a_device_and_a_card_have_their_words() {
    assert!(!device_name(ClientKind::Mac).is_empty());
    let rect = Rect { x: 0, y: 0, w: 0, h: 0 };
    let note = CanvasItem {
        id: 1,
        kind: ItemKind::Note { text: String::new() },
        rect,
        z: 0,
        sleeping: false,
        name: None,
    };
    assert_eq!(kind_name(&note), "note");
}

#[test]
fn every_list_mark_is_stripped_from_a_title() {
    assert_eq!(note_title("+ [ ] ship"), "ship · 0/1");
    assert_eq!(note_title("+ plain"), "plain");
}
