//! A file tile: reading, editing, saving and searching.
use slopty_ui::file::{
    changed_from, changed_lines, clipped_reason, find_hits, size_label, Body, DiffOp, FileRead,
    FileView, FileViewEvent, Trouble, Version, WayOut, WriteResult, FILE_BYTES,
};
use slopty_ui::highlight::Grammars;

fn text_read(text: &str, newline: bool, modified_ms: u64) -> FileRead {
    let size = u64::try_from(text.len()).unwrap_or(0).saturating_add(u64::from(newline));
    FileRead::Text {
        text: text.to_owned(),
        more_lines: 0,
        size,
        modified_ms,
        final_newline: newline,
    }
}

/// The host answers with `read`; the next frame puts it in the editor.
fn arrives(view: &mut FileView, read: FileRead) {
    view.set_read(read);
    if view.take_text().is_some() {
        view.text_placed(0);
    }
    view.take_line();
}

/// The caret goes to the start of the text and `typed` goes in, as keys would; a read-only editor
/// takes none.
fn types(view: &mut FileView, typed: &str) {
    if view.read_only().is_none() {
        let text = format!("{typed}{}", view.text());
        view.edited(text, 0);
    }
}

#[test]
fn cmd_s_sends_the_edit_based_on_the_version_it_started_from() {
    let all = Grammars::load();
    let mut view = FileView::new(&all, 1, "/w/src/main.rs");
    arrives(&mut view, text_read("fn a() {}\nlet b = 1;", true, 1_000));
    assert_eq!(view.text(), "fn a() {}\nlet b = 1;");
    assert!(!view.dirty(), "a fresh read is clean");
    assert_eq!(view.coloured_as(), Some("Rust"));

    types(&mut view, "// hi\n");
    assert!(view.dirty(), "typing makes it dirty");
    assert_eq!(
        view.save(),
        Some(FileViewEvent::Save {
            text: "// hi\nfn a() {}\nlet b = 1;\n".to_owned(),
            base_modified_ms: Some(1_000),
        }),
        "the whole text, the file's final newline kept, based on the read"
    );
    assert!(view.saving());
    // Again while the first is out sends nothing.
    assert_eq!(view.save(), None);

    view.written(WriteResult::Saved { size: 26, modified_ms: 2_000 });
    assert!(!view.dirty() && !view.saving() && view.trouble().is_none(), "saved and clean");
    // The watch's echo of the save changes nothing.
    arrives(&mut view, text_read("// hi\nfn a() {}\nlet b = 1;", true, 2_000));
    assert!(!view.dirty() && view.trouble().is_none());
    // A clean tile with nothing to save sends nothing.
    assert_eq!(view.save(), None);
}

#[test]
fn a_file_without_a_final_newline_is_saved_without_one() {
    let all = Grammars::load();
    let mut view = FileView::new(&all, 1, "/w/notes.txt");
    arrives(&mut view, text_read("one", false, 5));
    types(&mut view, "z");
    assert_eq!(
        view.save(),
        Some(FileViewEvent::Save { text: "zone".to_owned(), base_modified_ms: Some(5) })
    );
}

#[test]
fn a_change_on_disk_under_an_edit_is_a_conflict_offered_inline() {
    let all = Grammars::load();
    let mut view = FileView::new(&all, 1, "/w/a.md");
    arrives(&mut view, text_read("one\ntwo", true, 1_000));
    types(&mut view, "mine ");
    // An agent rewrote the file meanwhile.
    arrives(&mut view, text_read("one\nTWO", true, 1_500));
    assert_eq!(view.trouble(), Some(&Trouble::Conflict));
    assert!(view.dirty(), "the edit is kept");
    assert_eq!(view.text(), "mine one\ntwo");
    // A save does not write over it; the bar offers the two ways out.
    assert_eq!(view.save(), None);
    let ways = view.bar().map(|b| b.ways);
    assert_eq!(ways, Some(vec![WayOut::Reload, WayOut::Overwrite]));
    assert_eq!(
        view.overwrite(),
        Some(FileViewEvent::Save { text: "mine one\ntwo\n".to_owned(), base_modified_ms: None }),
        "overwrite writes whatever the disk has"
    );
    assert_eq!(view.trouble(), None);
}

#[test]
fn reload_drops_the_edit_for_the_disk_s_text() {
    let all = Grammars::load();
    let mut view = FileView::new(&all, 1, "/w/a.md");
    arrives(&mut view, text_read("one\ntwo", true, 1_000));
    types(&mut view, "mine ");
    assert!(view.save().is_some());
    // The host refused: the file changed since the read.
    view.written(WriteResult::Conflict { modified_ms: 1_700 });
    assert_eq!(view.trouble(), Some(&Trouble::Conflict));
    assert_eq!(view.reload(), Some(FileViewEvent::Reload), "the file is read again");
    arrives(&mut view, text_read("theirs", true, 1_700));
    assert_eq!(view.text(), "theirs");
    assert!(!view.dirty() && view.trouble().is_none());
}

#[test]
fn a_clean_tile_takes_a_change_on_disk_and_tints_the_lines() {
    let all = Grammars::load();
    let mut view = FileView::new(&all, 1, "/w/src/lib.rs");
    arrives(&mut view, text_read("a\nb\nc", true, 1));
    arrives(&mut view, text_read("a\nB\nc\nd", true, 2));
    assert_eq!(view.text(), "a\nB\nc\nd");
    assert_eq!(view.changed(), [1, 3]);
    assert_eq!(view.trouble(), None);
    assert!(!view.dirty());
    assert_eq!(view.reading_line(), Some(2), "the caret lands on the first change");
    assert!(view.bar().is_none(), "a silent reload asks nothing");
    assert_eq!(view.save(), None);
}

#[test]
fn a_clipped_file_opens_read_only_with_the_reason() {
    let all = Grammars::load();
    let mut view = FileView::new(&all, 1, "/w/big.log");
    let read = FileRead::Text {
        text: "first".to_owned(),
        more_lines: 12,
        size: 40_000,
        modified_ms: 1,
        final_newline: false,
    };
    arrives(&mut view, read);
    assert_eq!(view.read_only(), Some("Read-only: longer than 2000 lines"));
    types(&mut view, "x");
    assert_eq!(view.text(), "first", "typing changes nothing");
    assert_eq!(view.save(), None, "nothing to save");
    assert!(view.bar().is_some());
    assert_eq!(
        clipped_reason(0, FILE_BYTES + 1).as_deref(),
        Some("Read-only: larger than 512.0 KB")
    );
    assert_eq!(clipped_reason(0, 10), None);
}

#[test]
fn a_failed_save_says_why_until_the_next_keystroke() {
    let all = Grammars::load();
    let mut view = FileView::new(&all, 1, "/w/ro.txt");
    arrives(&mut view, text_read("x", true, 1));
    types(&mut view, "y");
    assert!(view.save().is_some());
    view.written(WriteResult::Failed { error: "Permission denied".to_owned() });
    assert_eq!(view.trouble(), Some(&Trouble::Failed("Permission denied".to_owned())));
    assert!(view.dirty(), "the edit is still there to save");
    types(&mut view, "z");
    assert_eq!(view.trouble(), None);
}

#[test]
fn hits_are_the_lines_holding_the_needle_with_smart_case() {
    let lines = ["Alpha", "beta", "alpha beta", "gamma"];
    assert_eq!(find_hits(&lines, "alpha"), [0, 2], "no capital: any case");
    assert_eq!(find_hits(&lines, "Alpha"), [0], "a capital: as typed");
    assert_eq!(find_hits(&lines, "BETA"), Vec::<usize>::new());
    assert_eq!(find_hits(&lines, ""), Vec::<usize>::new(), "an empty needle finds nothing");
}

#[test]
fn changed_lines_point_at_inserts_replacements_and_deletions() {
    assert_eq!(changed_lines("a\nb\nc", "a\nB\nc"), [1]);
    assert_eq!(changed_lines("a\nc", "a\nb\nb2\nc"), [1, 2]);
    assert_eq!(changed_lines("a\nb\nc", "a\nc"), [1]);
    assert_eq!(changed_lines("a\nb", "a"), [0], "a deleted tail points at the last line");
    assert_eq!(changed_lines("a", "a"), Vec::<usize>::new());
}

#[test]
fn sizes_read_as_a_human_would() {
    assert_eq!(size_label(512), "512 B");
    assert_eq!(size_label(1536), "1.5 KB");
    assert_eq!(size_label(3 * 1024 * 1024), "3.0 MB");
}

#[test]
fn differences_become_lines() {
    let ops = vec![
        DiffOp::Equal { old_index: 0, new_index: 0, len: 2 },
        DiffOp::Insert { new_index: 2, new_len: 2 },
        DiffOp::Delete,
    ];
    assert_eq!(changed_from(&ops, 4), [2, 3]);
    let ops = vec![
        DiffOp::Equal { old_index: 0, new_index: 0, len: 1 },
        DiffOp::Delete,
        DiffOp::Equal { old_index: 2, new_index: 1, len: 2 },
        DiffOp::Replace { new_index: 3, new_len: 1 },
    ];
    assert_eq!(changed_from(&ops, 4), [1, 3]);
    assert_eq!(changed_from(&vec![DiffOp::Delete], 0), Vec::<usize>::new());
}

#[test]
fn changed_lines_come_in_order_wherever_an_insertion_lands() {
    assert_eq!(changed_lines("a\nb", "b\nb\nb\nb"), [0, 1, 2, 3]);
    assert_eq!(changed_lines("a\nb", "b\nb"), [0, 1]);
    assert_eq!(changed_lines("a\nb", "b\na\na\na\na"), [0, 1, 2, 3, 4]);
}

#[test]
fn capital_letters_beyond_ascii_fold_too() {
    assert_eq!(find_hits(&["ÄRGER", "x"], "ärger"), [0]);
    assert_eq!(find_hits(&["ärger"], "Ärger"), Vec::<usize>::new());
}

#[test]
fn a_version_is_written_with_its_own_ending() {
    let kept = Version::of("a", true, 1);
    assert_eq!(kept.file_text("a\nb"), "a\nb\n");
    let bare = Version::of("a", false, 1);
    assert_eq!(bare.file_text("a\nb"), "a\nb");
}

#[test]
fn the_find_bar_walks_its_hits_and_back() {
    let all = Grammars::load();
    let mut view = FileView::new(&all, 1, "/w/a.txt");
    arrives(&mut view, text_read("one\ntwo\none more\nlast one", true, 1));
    view.find();
    assert!(view.finding());
    assert_eq!(view.search_count(), "");
    view.search_changed("one");
    assert_eq!(view.hits(), Some((&[0, 2, 3][..], Some(0))));
    assert_eq!(view.search_count(), "1/3");
    view.step_hit(1);
    assert_eq!(view.hits(), Some((&[0, 2, 3][..], Some(1))));
    view.step_hit(-1);
    assert_eq!(view.hits(), Some((&[0, 2, 3][..], Some(0))), "a step back undoes a step");
    view.step_hit(-1);
    assert_eq!(view.search_count(), "3/3", "before the first is the last");
    view.search_changed("absent");
    assert_eq!(view.search_count(), "none");
    assert_eq!(view.search_needle(), Some("absent"));
    assert_eq!(view.close_find(), Some(FileViewEvent::FindClosed));
    assert!(!view.finding());
    view.find_with("two");
    assert_eq!(view.hits(), Some((&[1][..], Some(0))));
}

#[test]
fn a_binary_or_missing_file_says_so() {
    let all = Grammars::load();
    let mut view = FileView::new(&all, 1, "/w/a.bin");
    view.set_read(FileRead::Binary { size: 1536 });
    match view.face().body {
        Body::Notice(text) => assert!(text.contains("1.5 KB"), "{text}"),
        Body::Editor { .. } => panic!("a binary file has no editor"),
    }
    view.set_read(FileRead::Missing { error: "No such file".to_owned() });
    match view.face().body {
        Body::Notice(text) => assert!(text.contains("No such file"), "{text}"),
        Body::Editor { .. } => panic!("a missing file has no editor"),
    }
}

#[test]
fn a_hit_is_selected_where_it_stands() {
    let all = Grammars::load();
    let mut view = FileView::new(&all, 1, "/w/a.txt");
    arrives(&mut view, text_read("zero\nthe one\nlast", true, 1));
    assert_eq!(view.hit_selection(), None);
    view.find_with("one");
    assert_eq!(view.hit_selection(), Some((9, 12)));
    view.search_changed("absent");
    assert_eq!(view.hit_selection(), None);
}

#[test]
fn a_line_named_before_the_text_is_landed_on_when_it_arrives() {
    let all = Grammars::load();
    let mut view = FileView::new(&all, 1, "/w/a.txt");
    view.focus_line(Some(3));
    arrives(&mut view, text_read("a\nb\nc\nd", true, 1));
    assert_eq!(view.reading_line(), Some(3));
    view.focus_line(Some(1));
    assert_eq!(view.take_line(), Some(0));
    view.focus_line(None);
    assert_eq!(view.take_line(), None);
}
