//! What cards, banners and badges say.
use vstd::prelude::*;

use crate::canvas::doc::{CanvasItem, ClientKind, Item, ItemKind};
use crate::double::{half_even, seconds, seconds_units, unit};
use crate::markdown::{
    law_toggle_flips_one_task, only_tasks, said, segments, segments_of, toggled, Piece, Segment,
};
use crate::text::{
    after_last, chars_of, decimal, decimal_tenths, decimal_two, has_prefix, last_at, line_spans,
    lines, part, past_last, push_decimal, push_tenths, push_two, starts_with, string_of, trim,
    trim_end, trimmed, trimmed_end,
};
use crate::time::Duration;

verus! {

/// How much of a note's first line the title bar shows.
pub const NOTE_TITLE_CHARS: usize = 40;

/// How much of a note's first line its zoomed-out card shows.
pub const NOTE_SUMMARY_CHARS: usize = 48;

/// A banner's title, led by the card's name where it has one.
pub open spec fn titled(name: Option<Seq<char>>, what: Seq<char>) -> Seq<char> {
    match name {
        Some(name) => name + " · "@ + what,
        None => what,
    }
}

/// The text that `name` borrows.
pub open spec fn lent(name: Option<&str>) -> Option<Seq<char>> {
    match name {
        Some(name) => Some(name@),
        None => None,
    }
}

/// A banner's title: what the agent is doing, led by the card's name when the human gave it one,
/// so a banner from a canvas of several agents says which card it is about.
pub fn banner_title(name: Option<&str>, what: &str) -> (r: String)
    ensures
        r@ == titled(lent(name), what@),
{
    match name {
        Some(name) => {
            let mut out = name.to_owned();
            out.append(" · ");
            out.append(what);
            out
        },
        None => what.to_owned(),
    }
}

/// A program's notification as a banner: its title and its body.
pub open spec fn banner_of(name: Option<Seq<char>>, title: Seq<char>, body: Seq<char>) -> (
    Seq<char>,
    Seq<char>,
) {
    let said = if trim(title).len() == 0 {
        "Terminal"@
    } else {
        trim(title)
    };
    (titled(name, said), trim(body))
}

/// A program's notification as a banner: its title led by the card's name, "Terminal" when the
/// protocol carried no title, and its body.
pub fn program_banner(name: Option<&str>, title: &str, body: &str) -> (r: (String, String))
    ensures
        (r.0@, r.1@) == banner_of(lent(name), title@, body@),
{
    let title_chars = chars_of(title);
    let body_chars = chars_of(body);
    let said = trimmed(title_chars.as_slice());
    let body_text = string_of(trimmed(body_chars.as_slice()));
    if said.len() == 0 {
        (banner_title(name, "Terminal"), body_text)
    } else {
        let said_text = string_of(said);
        (banner_title(name, said_text.as_str()), body_text)
    }
}

/// A character that marks a heading, a list item or a quote.
pub open spec fn is_lead_mark(c: char) -> bool {
    c == '#' || c == '-' || c == '*' || c == '+' || c == '>' || c == ' '
}

/// `s` without the marks it starts with.
pub open spec fn unmarked(s: Seq<char>) -> Seq<char>
    decreases s.len(),
{
    if s.len() > 0 && is_lead_mark(s[0]) {
        unmarked(s.drop_first())
    } else {
        s
    }
}

/// `s` without the box of a task it starts with.
pub open spec fn unboxed(s: Seq<char>) -> Seq<char> {
    if starts_with(s, "[ ] "@) || starts_with(s, "[x] "@) || starts_with(s, "[X] "@) {
        s.skip(4)
    } else {
        s
    }
}

/// What a line says without its marks.
pub open spec fn bare(line: Seq<char>) -> Seq<char> {
    trim(unboxed(trim(unmarked(trim(line)))))
}

/// The first of `all` that says something, without its marks.
pub open spec fn first_bare(all: Seq<Seq<char>>) -> Option<Seq<char>>
    decreases all.len(),
{
    if all.len() == 0 {
        None
    } else if bare(all[0]).len() > 0 {
        Some(bare(all[0]))
    } else {
        first_bare(all.drop_first())
    }
}

/// How many tasks there are among `pieces`.
pub open spec fn task_count(pieces: Seq<Piece>) -> nat
    decreases pieces.len(),
{
    if pieces.len() == 0 {
        0
    } else {
        task_count(pieces.drop_last()) + if pieces.last() is Task {
            1nat
        } else {
            0nat
        }
    }
}

/// How many ticked tasks there are among `pieces`.
pub open spec fn done_count(pieces: Seq<Piece>) -> nat
    decreases pieces.len(),
{
    if pieces.len() == 0 {
        0
    } else {
        done_count(pieces.drop_last()) + if pieces.last() matches Piece::Task { done, .. } && done {
            1nat
        } else {
            0nat
        }
    }
}

/// How many of a note's task lines are ticked, and how many there are.
pub open spec fn progress_of(text: Seq<char>) -> Option<(nat, nat)> {
    let pieces = segments_of(text);
    if task_count(pieces) > 0 {
        Some((done_count(pieces), task_count(pieces)))
    } else {
        None
    }
}

/// How many of a note's task lines are ticked, and how many there are; `None` without any.
pub fn note_progress(text: &str) -> (r: Option<(usize, usize)>)
    ensures
        match r {
            Some((done, total)) => progress_of(text@) == Some((done as nat, total as nat)),
            None => progress_of(text@) is None,
        },
{
    let all = segments(text);
    let ghost pieces = said(all@);
    let mut done: usize = 0;
    let mut total: usize = 0;
    let mut i: usize = 0;
    while i < all.len()
        invariant
            i <= all.len(),
            pieces == said(all@),
            total == task_count(pieces.take(i as int)),
            done == done_count(pieces.take(i as int)),
            done <= total <= i,
        decreases all.len() - i,
    {
        proof {
            assert(pieces[i as int] == all@[i as int]@);
            assert(pieces.take(i + 1).drop_last() == pieces.take(i as int));
            assert(pieces.take(i + 1).last() == pieces[i as int]);
        }
        match &all[i] {
            Segment::Task(task) => {
                total += 1;
                if task.done {
                    done += 1;
                }
            },
            _ => {},
        }
        i += 1;
    }
    assert(pieces.take(i as int) == pieces);
    if total > 0 {
        Some((done, total))
    } else {
        None
    }
}

/// A line cut to what the title bar shows.
pub open spec fn cut_line(line: Seq<char>) -> Seq<char> {
    if line.len() > NOTE_TITLE_CHARS {
        trim_end(line.take(NOTE_TITLE_CHARS as int)) + "…"@
    } else {
        line
    }
}

/// A note's title.
pub open spec fn note_title_of(text: Seq<char>) -> Seq<char> {
    let title = match first_bare(lines(text)) {
        Some(line) => cut_line(line),
        None => "note"@,
    };
    match progress_of(text) {
        Some((done, total)) => title + " · "@ + decimal(done) + "/"@ + decimal(total),
        None => title,
    }
}

/// `s` without the marks it starts with.
fn without_marks(s: &[char]) -> (r: &[char])
    ensures
        r@ == unmarked(s@),
{
    let mut i: usize = 0;
    assert(s@.skip(0) == s@);
    while i < s.len() && (s[i] == '#' || s[i] == '-' || s[i] == '*' || s[i] == '+' || s[i] == '>'
        || s[i] == ' ')
        invariant
            i <= s.len(),
            unmarked(s@) == unmarked(s@.skip(i as int)),
        decreases s.len() - i,
    {
        assert(s@.skip(i as int).drop_first() == s@.skip(i + 1));
        i += 1;
    }
    assert(s@.skip(i as int) == s@.subrange(i as int, s@.len() as int));
    part(s, i, s.len())
}

/// `s` without the box of a task it starts with.
fn without_box(s: &[char]) -> (r: &[char])
    ensures
        r@ == unboxed(s@),
{
    proof {
        reveal_strlit("[ ] ");
        reveal_strlit("[x] ");
        reveal_strlit("[X] ");
    }
    let open = chars_of("[ ] ");
    let small = chars_of("[x] ");
    let large = chars_of("[X] ");
    if has_prefix(s, open.as_slice()) || has_prefix(s, small.as_slice()) || has_prefix(
        s,
        large.as_slice(),
    ) {
        assert(s@.skip(4) == s@.subrange(4, s@.len() as int));
        part(s, 4, s.len())
    } else {
        s
    }
}

/// A note's title, "note" while it is empty.
///
/// Its first non-empty line with the heading, list, quote and task marks stripped, cut to
/// [`NOTE_TITLE_CHARS`]. A note with task lines counts them after it: `Plan · 1/3`.
pub fn note_title(text: &str) -> (r: String)
    ensures
        r@ == note_title_of(text@),
{
    let chars = chars_of(text);
    let spans = line_spans(chars.as_slice());
    let ghost all = lines(text@);
    let mut found: Option<String> = None;
    let mut i: usize = 0;
    assert(all.skip(0) == all);
    while i < spans.len() && found.is_none()
        invariant
            i <= spans@.len(),
            all == lines(text@),
            chars@ == text@,
            spans@.len() == all.len(),
            forall|k: int|
                0 <= k < spans@.len() ==> {
                    &&& (#[trigger] spans@[k]).0 <= spans@[k].1 <= chars@.len()
                    &&& chars@.subrange(spans@[k].0 as int, spans@[k].1 as int) == all[k]
                },
            match found {
                Some(line) => first_bare(all) == Some(line@),
                None => first_bare(all) == first_bare(all.skip(i as int)),
            },
        decreases spans.len() - i,
    {
        let (from, to) = spans[i];
        proof {
            assert(all.skip(i as int)[0] == all[i as int]);
            assert(all.skip(i as int).drop_first() == all.skip(i + 1));
        }
        let line = trimmed(
            without_box(trimmed(without_marks(trimmed(part(chars.as_slice(), from, to))))),
        );
        if line.len() > 0 {
            found = Some(string_of(line));
        }
        i += 1;
    }
    let mut title = match found {
        None => "note".to_owned(),
        Some(line) => {
            let line_chars = chars_of(line.as_str());
            if line_chars.len() > NOTE_TITLE_CHARS {
                let cut = part(line_chars.as_slice(), 0, NOTE_TITLE_CHARS);
                assert(cut@ == line@.take(NOTE_TITLE_CHARS as int));
                let mut out = string_of(trimmed_end(cut));
                out.append("…");
                out
            } else {
                line
            }
        },
    };
    if let Some((done, total)) = note_progress(text) {
        title.append(" · ");
        push_decimal(&mut title, done as u128);
        title.append("/");
        push_decimal(&mut title, total as u128);
    }
    title
}

/// The first of `all` that says something.
pub open spec fn first_said(all: Seq<Seq<char>>) -> Seq<char>
    decreases all.len(),
{
    if all.len() == 0 {
        "empty note"@
    } else if trim(all[0]).len() > 0 {
        trim(all[0])
    } else {
        first_said(all.drop_first())
    }
}

/// At most the first `n` characters of `s`.
pub open spec fn at_most(s: Seq<char>, n: int) -> Seq<char> {
    if s.len() > n {
        s.take(n)
    } else {
        s
    }
}

/// What a zoomed-out note card shows: its first non-empty line, clipped.
pub fn note_summary(text: &str) -> (r: String)
    ensures
        r@ == at_most(first_said(lines(text@)), NOTE_SUMMARY_CHARS as int),
{
    let chars = chars_of(text);
    let spans = line_spans(chars.as_slice());
    let ghost all = lines(text@);
    let mut i: usize = 0;
    assert(all.skip(0) == all);
    proof {
        reveal_strlit("empty note");
    }
    while i < spans.len()
        invariant
            i <= spans@.len(),
            all == lines(text@),
            chars@ == text@,
            spans@.len() == all.len(),
            forall|k: int|
                0 <= k < spans@.len() ==> {
                    &&& (#[trigger] spans@[k]).0 <= spans@[k].1 <= chars@.len()
                    &&& chars@.subrange(spans@[k].0 as int, spans@[k].1 as int) == all[k]
                },
            first_said(all) == first_said(all.skip(i as int)),
        decreases spans.len() - i,
    {
        let (from, to) = spans[i];
        proof {
            assert(all.skip(i as int)[0] == all[i as int]);
            assert(all.skip(i as int).drop_first() == all.skip(i + 1));
        }
        let line = trimmed(part(chars.as_slice(), from, to));
        if line.len() > 0 {
            if line.len() > NOTE_SUMMARY_CHARS {
                let cut = part(line, 0, NOTE_SUMMARY_CHARS);
                assert(cut@ == line@.take(NOTE_SUMMARY_CHARS as int));
                return string_of(cut);
            }
            return string_of(line);
        }
        i += 1;
    }
    "empty note".to_owned()
}

/// A shell command that finished while nobody was looking: what the title-bar badge says.
#[derive(Debug)]
pub struct Finished {
    /// What was typed.
    pub command: String,
    /// Its exit status, when the shell said.
    pub exit: Option<u8>,
    /// How long it ran.
    pub elapsed: Duration,
}

/// A finished command, in the model.
pub struct Ended {
    pub command: Seq<char>,
    pub exit: Option<u8>,
    pub elapsed: nat,
}

impl DeepView for Finished {
    type V = Ended;

    open spec fn deep_view(&self) -> Ended {
        Ended { command: self.command@, exit: self.exit, elapsed: self.elapsed@ }
    }
}

/// How long a command took, in words: seconds and a tenth under a minute, minutes and seconds
/// above.
pub open spec fn took(nanos: nat) -> Seq<char> {
    let secs = nanos / 1_000_000_000;
    if secs < 60 {
        decimal_tenths(
            half_even(seconds_units(secs, nanos % 1_000_000_000) * 10, unit()) as nat,
        ) + " s"@
    } else {
        decimal(secs / 60) + " m "@ + decimal_two(secs % 60) + " s"@
    }
}

/// How long a command took, in words.
pub fn took_label(elapsed: Duration) -> (r: String)
    ensures
        r@ == took(elapsed@),
{
    let mut out = String::new();
    let secs: u64 = elapsed.as_secs();
    if secs < 60 {
        let tenths: u128 = seconds(secs, elapsed.subsec_nanos()).tenths();
        push_tenths(&mut out, tenths);
        out.append(" s");
    } else {
        push_decimal(&mut out, (secs / 60) as u128);
        out.append(" m ");
        push_two(&mut out, (secs % 60) as u128);
        out.append(" s");
    }
    assert(out@ == took(elapsed@));
    out
}

impl Ended {
    /// The command went well, as far as the shell said.
    pub open spec fn well(self) -> bool {
        self.exit == Some(0u8) || self.exit is None
    }

    /// What the badge says.
    pub open spec fn says(self) -> Seq<char> {
        if self.well() {
            "done "@ + took(self.elapsed)
        } else {
            "failed ("@ + decimal(self.exit->0 as nat) + ") "@ + took(self.elapsed)
        }
    }
}

impl Finished {
    /// The badge text: "done 3.2 s", "failed (1) 1 m 04 s" (the row caption's clock).
    pub fn label(&self) -> (r: String)
        ensures
            r@ == self.deep_view().says(),
    {
        let took_text = took_label(self.elapsed);
        let failed: Option<u8> = match self.exit {
            Some(code) => if code == 0 {
                None
            } else {
                Some(code)
            },
            None => None,
        };
        match failed {
            None => {
                let mut out = "done ".to_owned();
                out.append(took_text.as_str());
                out
            },
            Some(code) => {
                let mut out = "failed (".to_owned();
                push_decimal(&mut out, code as u128);
                out.append(") ");
                out.append(took_text.as_str());
                out
            },
        }
    }
}

/// `s` without the slashes it ends with.
pub open spec fn unslashed(s: Seq<char>) -> Seq<char>
    decreases s.len(),
{
    if s.len() > 0 && s.last() == '/' {
        unslashed(s.drop_last())
    } else {
        s
    }
}

/// `s` without the slashes it ends with.
pub fn without_slashes(s: &[char]) -> (r: &[char])
    ensures
        r@ == unslashed(s@),
{
    let mut n: usize = s.len();
    assert(s@.take(n as int) == s@);
    while n > 0 && s[n - 1] == '/'
        invariant
            n <= s.len(),
            unslashed(s@) == unslashed(s@.take(n as int)),
        decreases n,
    {
        assert(s@.take(n as int).drop_last() == s@.take(n - 1));
        n -= 1;
    }
    proof {
        assert(s@.take(n as int) == s@.subrange(0, n as int));
        if n > 0 {
            assert(s@.take(n as int).last() == s@[n - 1]);
        }
    }
    part(s, 0, n)
}

/// A file card's title: the file's name, with the directory it is in when there is one.
pub open spec fn file_title_of(path: Seq<char>) -> Seq<char> {
    let t = unslashed(path);
    let at = last_at(t, '/');
    let dir = after_last(t.take(at), '/');
    if at >= 0 && dir.len() > 0 {
        after_last(t, '/') + " · "@ + dir
    } else {
        after_last(t, '/')
    }
}

/// A file card's title: the file's name, with the directory it is in when there is one
/// (`main.rs · src`), so two `mod.rs` cards can be told apart.
pub fn file_title(path: &str) -> (r: String)
    ensures
        r@ == file_title_of(path@),
{
    let chars = chars_of(path);
    let t = without_slashes(chars.as_slice());
    let at: usize = past_last(t, '/');
    assert(t@.skip(at as int) == t@.subrange(at as int, t@.len() as int));
    let mut name = string_of(part(t, at, t.len()));
    if at > 0 {
        let before = part(t, 0, at - 1);
        assert(before@ == t@.take(at - 1));
        let from: usize = past_last(before, '/');
        assert(before@.skip(from as int) == before@.subrange(from as int, before@.len() as int));
        let dir = part(before, from, before.len());
        if dir.len() > 0 {
            name.append(" · ");
            let dir_text = string_of(dir);
            name.append(dir_text.as_str());
        }
    }
    name
}

/// What a client is, for a human.
pub open spec fn device(kind: ClientKind) -> Seq<char> {
    match kind {
        ClientKind::Mac => "Mac"@,
        ClientKind::IPad => "iPad"@,
        ClientKind::IPhone => "iPhone"@,
        ClientKind::Tool => "tool"@,
    }
}

/// What a client is, for a human: `Mac`, `iPad`, `iPhone`, `tool`.
pub fn device_name(kind: ClientKind) -> (r: &'static str)
    ensures
        r@ == device(kind),
{
    match kind {
        ClientKind::Mac => "Mac",
        ClientKind::IPad => "iPad",
        ClientKind::IPhone => "iPhone",
        ClientKind::Tool => "tool",
    }
}

/// The word for what a card is.
pub open spec fn kind_of<T>(item: Item<T>) -> Seq<char> {
    match item.kind {
        ItemKind::Terminal { .. } => "terminal"@,
        ItemKind::Window { .. } => "window"@,
        ItemKind::Display { .. } => "display"@,
        ItemKind::Note { .. } => "note"@,
        ItemKind::File { .. } => "file"@,
    }
}

/// The word for what a card is: `terminal`, `window`, `display`, `note`, `file`.
pub fn kind_name(item: &CanvasItem) -> (r: &'static str)
    ensures
        r@ == kind_of(item.deep_view()),
{
    match &item.kind {
        ItemKind::Terminal { .. } => "terminal",
        ItemKind::Window { .. } => "window",
        ItemKind::Display { .. } => "display",
        ItemKind::Note { .. } => "note",
        ItemKind::File { .. } => "file",
    }
}

/// A note's title is never blank, and its line never longer than the title bar shows and an
/// ellipsis.
pub proof fn law_a_note_always_has_a_title(text: Seq<char>)
    ensures
        note_title_of(text).len() > 0,
        first_bare(lines(text)) matches Some(line) ==> line.len() > 0 && cut_line(line).len()
            <= NOTE_TITLE_CHARS + 1,
{
    reveal_strlit("note");
    reveal_strlit("…");
    lemma_first_bare(lines(text));
    if let Some(line) = first_bare(lines(text)) {
        let cut = line.take(NOTE_TITLE_CHARS as int);
        crate::text::lemma_trail(cut);
    }
}

proof fn lemma_first_bare(all: Seq<Seq<char>>)
    ensures
        first_bare(all) matches Some(line) ==> line.len() > 0,
    decreases all.len(),
{
    if all.len() > 0 && bare(all[0]).len() == 0 {
        lemma_first_bare(all.drop_first());
    }
}

/// No more tasks are ticked than there are.
pub proof fn law_progress_is_a_part(text: Seq<char>)
    ensures
        progress_of(text) matches Some((done, total)) ==> done <= total && total > 0,
{
    lemma_counts(segments_of(text));
}

proof fn lemma_counts(pieces: Seq<Piece>)
    ensures
        done_count(pieces) <= task_count(pieces),
    decreases pieces.len(),
{
    if pieces.len() > 0 {
        lemma_counts(pieces.drop_last());
    }
}

/// A toggle moves the number of ticked tasks by one, up where the task was open and down where it
/// was ticked, and leaves the number of tasks as it was.
pub proof fn law_a_toggle_moves_the_progress_by_one(text: Seq<char>, ix: nat)
    requires
        toggled(text, ix) is Some,
    ensures
        ({
            let ticked = only_tasks(segments_of(text))[ix as int]->done;
            &&& progress_of(text) matches Some((done, total))
            &&& (ticked ==> done > 0)
            &&& progress_of(toggled(text, ix).unwrap()) == Some(
                (
                    if ticked {
                        (done - 1) as nat
                    } else {
                        done + 1
                    },
                    total,
                ),
            )
        }),
{
    let was = segments_of(text);
    let now = segments_of(toggled(text, ix).unwrap());
    law_toggle_flips_one_task(text, ix);
    lemma_counts_tasks(was);
    lemma_counts_tasks(now);
    let tasks = only_tasks(was);
    let one = Piece::Task {
        ix,
        done: !tasks[ix as int]->done,
        text: tasks[ix as int]->Task_text,
    };
    lemma_only_tasks(was);
    assert(tasks[ix as int] is Task);
    lemma_counts_update(tasks, ix as int, one);
}

/// Only tasks are left.
proof fn lemma_only_tasks(pieces: Seq<Piece>)
    ensures
        forall|i: int|
            0 <= i < only_tasks(pieces).len() ==> #[trigger] only_tasks(pieces)[i] is Task,
    decreases pieces.len(),
{
    if pieces.len() > 0 {
        lemma_only_tasks(pieces.drop_last());
    }
}

/// What is no task is not counted.
proof fn lemma_counts_tasks(pieces: Seq<Piece>)
    ensures
        task_count(only_tasks(pieces)) == task_count(pieces),
        done_count(only_tasks(pieces)) == done_count(pieces),
    decreases pieces.len(),
{
    if pieces.len() > 0 {
        let init = pieces.drop_last();
        lemma_counts_tasks(init);
        if pieces.last() is Task {
            assert(only_tasks(pieces).drop_last() == only_tasks(init));
        }
    }
}

/// Turning the tick of one task over counts one more or one less.
proof fn lemma_counts_update(tasks: Seq<Piece>, at: int, one: Piece)
    requires
        0 <= at < tasks.len(),
        tasks[at] is Task,
        one is Task,
        one->done == !tasks[at]->done,
    ensures
        task_count(tasks) > 0,
        tasks[at]->done ==> done_count(tasks) > 0,
        task_count(tasks.update(at, one)) == task_count(tasks),
        done_count(tasks.update(at, one)) == if tasks[at]->done {
            (done_count(tasks) - 1) as nat
        } else {
            done_count(tasks) + 1
        },
    decreases tasks.len(),
{
    let next = tasks.update(at, one);
    let init = tasks.drop_last();
    if at == tasks.len() - 1 {
        assert(next.drop_last() == init);
    } else {
        assert(next.drop_last() == init.update(at, one));
        lemma_counts_update(init, at, one);
    }
}

/// The name in a file card's title holds no slash.
pub proof fn law_a_file_is_titled_by_its_name(path: Seq<char>)
    ensures
        !after_last(unslashed(path), '/').contains('/'),
        unslashed(path).len() > 0 ==> after_last(unslashed(path), '/').len() > 0,
{
    let t = unslashed(path);
    lemma_unslashed(path);
    lemma_after_last(t, '/');
}

proof fn lemma_unslashed(s: Seq<char>)
    ensures
        unslashed(s).len() > 0 ==> unslashed(s).last() != '/',
    decreases s.len(),
{
    if s.len() > 0 && s.last() == '/' {
        lemma_unslashed(s.drop_last());
    }
}

proof fn lemma_after_last(s: Seq<char>, c: char)
    ensures
        -1 <= last_at(s, c) < s.len(),
        last_at(s, c) >= 0 ==> s[last_at(s, c)] == c,
        forall|i: int| last_at(s, c) < i < s.len() ==> s[i] != c,
        !after_last(s, c).contains(c),
        s.len() > 0 && s.last() != c ==> after_last(s, c).len() > 0,
    decreases s.len(),
{
    if s.len() > 0 && s.last() != c {
        let rest = s.drop_last();
        lemma_after_last(rest, c);
        assert forall|i: int| last_at(s, c) < i < s.len() implies s[i] != c by {
            if i < rest.len() {
                assert(rest[i] == s[i]);
            }
        }
        if last_at(s, c) >= 0 {
            assert(rest[last_at(rest, c)] == s[last_at(s, c)]);
        }
    }
    let tail = after_last(s, c);
    assert forall|i: int| 0 <= i < tail.len() implies tail[i] != c by {
        assert(tail[i] == s[last_at(s, c) + 1 + i]);
    }
}

} // verus!
