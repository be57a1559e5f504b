//! Tasks, fences and their buttons.
use slopty_ui::markdown::{
    code_block, segments, task_label, task_line, toggle_task, Press, Segment, Task,
};

#[test]
fn a_task_line_is_a_mark_a_box_and_its_text() {
    assert_eq!(task_line("- [ ] ship"), Some((false, "ship")));
    assert_eq!(task_line("  * [x] **test**"), Some((true, "**test**")));
    assert_eq!(task_line("+ [X] shout"), Some((true, "shout")));
    assert_eq!(task_line("- [] no"), None, "the box needs its space");
    assert_eq!(task_line("-[ ] no"), None, "the mark needs its space");
    assert_eq!(task_line("[ ] no"), None, "no list mark");
    assert_eq!(task_line("- plain"), None);
}

#[test]
fn task_lines_are_their_own_segments_and_a_fence_hides_them() {
    assert_eq!(
        segments("todo\n- [ ] ship\n- [x] test\nnote\n```\n- [ ] not\n```"),
        [
            Segment::Prose("todo".to_owned()),
            Segment::Task(Task { ix: 0, done: false, text: "ship".to_owned() }),
            Segment::Task(Task { ix: 1, done: true, text: "test".to_owned() }),
            Segment::Prose("note".to_owned()),
            Segment::Code { lang: String::new(), body: "- [ ] not".to_owned() },
        ]
    );
}

#[test]
fn a_toggle_flips_the_nth_task_and_nothing_else() {
    const TEXT: &str = "- [ ] a\n```\n- [ ] x\n```\n  - [x] b\n- [ ] c\n";
    assert_eq!(
        toggle_task(TEXT, 0).as_deref(),
        Some("- [x] a\n```\n- [ ] x\n```\n  - [x] b\n- [ ] c\n")
    );
    assert_eq!(
        toggle_task(TEXT, 1).as_deref(),
        Some("- [ ] a\n```\n- [ ] x\n```\n  - [ ] b\n- [ ] c\n")
    );
    assert_eq!(
        toggle_task(TEXT, 2).as_deref(),
        Some("- [ ] a\n```\n- [ ] x\n```\n  - [x] b\n- [x] c\n")
    );
    assert_eq!(toggle_task(TEXT, 3), None, "no fourth task");
    assert_eq!(
        toggle_task("- [X] up", 0).as_deref(),
        Some("- [ ] up"),
        "a capital tick unticks"
    );
    let twice = toggle_task(&toggle_task(TEXT, 0).unwrap_or_default(), 0);
    assert_eq!(twice.as_deref(), Some(TEXT), "a toggle undoes itself");
}

#[test]
fn a_fenced_block_is_its_language_and_its_lines() {
    assert_eq!(
        segments("```rust\nfn a() {}\n\nfn b() {}\n```\n"),
        [Segment::Code { lang: "rust".to_owned(), body: "fn a() {}\n\nfn b() {}".to_owned() }]
    );
}

#[test]
fn a_block_can_be_copied_and_run_where_there_is_a_shell() {
    let block = code_block("sh", "ls", true);
    assert_eq!((block.lang.as_str(), block.code.as_str()), ("sh", "ls"));
    assert_eq!(block.buttons, [Press::Run, Press::Copy]);
    assert_eq!(code_block("sh", "ls", false).buttons, [Press::Copy]);
    assert_eq!(Press::Copy.look(), ("Copy code", "copy"));
    assert_eq!(Press::Run.look(), ("Run in shell", "run"));
}

#[test]
fn a_box_says_whether_it_is_ticked() {
    let task = |done| Task { ix: 0, done, text: "ship".to_owned() };
    assert_eq!(task_label(&task(true)), "Done: ship");
    assert_eq!(task_label(&task(false)), "To do: ship");
}

#[test]
fn a_toggle_leaves_prose_and_code_as_they_were() {
    let text = "intro\n- [ ] one\n```sh\nls\n```\n+ [x] two\nend";
    let was = segments(text);
    let next = toggle_task(text, 1).unwrap_or_default();
    let now = segments(&next);
    assert_eq!(was.len(), now.len());
    for (a, b) in was.iter().zip(&now) {
        match (a, b) {
            (Segment::Task(a), Segment::Task(b)) => {
                assert_eq!((a.ix, &a.text), (b.ix, &b.text));
                assert_eq!(a.done != b.done, a.ix == 1);
            }
            _ => assert_eq!(a, b),
        }
    }
}
