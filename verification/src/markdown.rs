//! Markdown read into pieces: prose, fenced blocks and task lines, and the tick of one task.
use vstd::prelude::*;

use crate::text::{
    chars_of, is_white, joined, lead, lead_of, lemma_join_pieces, lemma_lead, lemma_lead_is,
    lemma_pieces, lemma_pieces_of_join, line_spans, lines, part, piece_spans, pieces, push_all,
    spans_pieces, string_of, trim, trim_start, trimmed, trimmed_start, without_return,
};

verus! {

/// A piece of a Markdown text: prose, or a fenced block or task line shown on its own.
#[derive(Clone, PartialEq, Eq, Debug)]
pub enum Segment {
    /// Markdown between fenced blocks.
    Prose(String),
    /// One fenced block: the info string after the fence, and the lines inside.
    Code {
        /// The language after the opening fence (may be empty).
        lang: String,
        /// The block's lines, joined with `\n`.
        body: String,
    },
    /// One task-list line (`- [ ] text` or `- [x] text`).
    Task(Task),
}

/// A task-list line, out of its text.
#[derive(Clone, PartialEq, Eq, Debug)]
pub struct Task {
    /// Its place among the text's task lines, the index [`toggle_task`] takes.
    pub ix: usize,
    /// The box is ticked.
    pub done: bool,
    /// The Markdown after the box.
    pub text: String,
}

/// What a [`Segment`] says, as a value of the model.
pub enum Piece {
    Prose(Seq<char>),
    Code { lang: Seq<char>, body: Seq<char> },
    Task { ix: nat, done: bool, text: Seq<char> },
}

impl View for Segment {
    type V = Piece;

    open spec fn view(&self) -> Piece {
        match *self {
            Segment::Prose(text) => Piece::Prose(text@),
            Segment::Code { lang, body } => Piece::Code { lang: lang@, body: body@ },
            Segment::Task(task) => Piece::Task {
                ix: task.ix as nat,
                done: task.done,
                text: task.text@,
            },
        }
    }
}

/// The characters that start a list item.
pub open spec fn is_mark(c: char) -> bool {
    c == '-' || c == '*' || c == '+'
}

/// `line` is a task: behind its indentation a list mark, a space, a box, a space.
pub open spec fn is_task(line: Seq<char>) -> bool {
    let n = lead(line) as int;
    &&& n + 6 <= line.len()
    &&& is_mark(line[n])
    &&& line[n + 1] == ' '
    &&& line[n + 2] == '['
    &&& line[n + 3] == ' ' || line[n + 3] == 'x' || line[n + 3] == 'X'
    &&& line[n + 4] == ']'
    &&& line[n + 5] == ' '
}

/// The tick and the text of a task line.
pub open spec fn task_of(line: Seq<char>) -> Option<(bool, Seq<char>)> {
    if is_task(line) {
        Some((line[lead(line) as int + 3] != ' ', line.skip(lead(line) as int + 6)))
    } else {
        None
    }
}

/// `line` opens or closes a fenced block: three backticks behind its indentation.
pub open spec fn is_fence(line: Seq<char>) -> bool {
    let n = lead(line) as int;
    n + 3 <= line.len() && line[n] == '`' && line[n + 1] == '`' && line[n + 2] == '`'
}

/// Where the text of the task line `line` starts; `None` where it is no task line.
fn task_at(line: &[char]) -> (r: Option<(bool, usize)>)
    ensures
        r is Some == is_task(line@),
        r matches Some((done, at)) ==> {
            &&& at == lead(line@) + 6
            &&& at <= line@.len()
            &&& done == (line@[at - 3] != ' ')
        },
{
    let n: usize = lead_of(line);
    if line.len() - n < 6 {
        return None;
    }
    let mark: char = line[n];
    let tick: char = line[n + 3];
    if (mark == '-' || mark == '*' || mark == '+') && line[n + 1] == ' ' && line[n + 2] == '['
        && (tick == ' ' || tick == 'x' || tick == 'X') && line[n + 4] == ']' && line[n + 5] == ' ' {
        Some((tick != ' ', n + 6))
    } else {
        None
    }
}

/// Whether `line` opens or closes a fenced block.
fn fence_at(line: &[char]) -> (r: bool)
    ensures
        r == is_fence(line@),
{
    let n: usize = lead_of(line);
    line.len() - n >= 3 && line[n] == '`' && line[n + 1] == '`' && line[n + 2] == '`'
}

/// `line` as a task-list item: the tick and the text after the box. A list mark (`-`, `*`,
/// `+`), a space, `[ ]` or `[x]`/`[X]`, a space; indentation ignored.
pub fn task_line(line: &str) -> (r: Option<(bool, &str)>)
    ensures
        match r {
            Some((done, text)) => task_of(line@) == Some((done, text@)),
            None => task_of(line@) is None,
        },
{
    let chars = chars_of(line);
    match task_at(chars.as_slice()) {
        Some((done, at)) => Some((done, line.substring_char(at, chars.len()))),
        None => None,
    }
}

/// The line `n` of `lines` stands inside a fenced block, or closes one.
pub open spec fn fenced(lines: Seq<Seq<char>>, n: int) -> bool
    decreases n,
{
    n > 0 && fenced(lines, n - 1) != is_fence(lines[n - 1])
}

/// The line `n` is a task that no fence hides.
pub open spec fn open_task(lines: Seq<Seq<char>>, n: int) -> bool {
    !fenced(lines, n) && is_task(lines[n])
}

/// How many of the first `n` lines are tasks that no fence hides.
pub open spec fn tasks_before(lines: Seq<Seq<char>>, n: int) -> nat
    decreases n,
{
    if n <= 0 {
        0
    } else {
        tasks_before(lines, n - 1) + if open_task(lines, n - 1) {
            1nat
        } else {
            0nat
        }
    }
}

/// The line `n` is the task with `ix` tasks before it.
pub open spec fn is_nth_task(lines: Seq<Seq<char>>, ix: nat, n: int) -> bool {
    0 <= n < lines.len() && open_task(lines, n) && tasks_before(lines, n) == ix
}

/// The task line `line` with its tick turned over; nothing else changes.
pub open spec fn flipped(line: Seq<char>) -> Seq<char> {
    let at = lead(line) as int + 3;
    line.update(
        at,
        if line[at] == ' ' {
            'x'
        } else {
            ' '
        },
    )
}

/// `markdown` with the tick of its `ix`-th open task turned over, where there is one.
pub open spec fn toggled(markdown: Seq<char>, ix: nat) -> Option<Seq<char>> {
    let all = pieces(markdown, '\n');
    if exists|n: int| is_nth_task(all, ix, n) {
        let n = choose|n: int| is_nth_task(all, ix, n);
        Some(joined(all.update(n, flipped(all[n])), '\n'))
    } else {
        None
    }
}

proof fn lemma_tasks_grow(lines: Seq<Seq<char>>, a: int, b: int)
    requires
        0 <= a <= b,
    ensures
        tasks_before(lines, a) <= tasks_before(lines, b),
        tasks_before(lines, b) <= b,
    decreases b,
{
    if a < b {
        lemma_tasks_grow(lines, a, b - 1);
    } else if a > 0 {
        lemma_tasks_grow(lines, a - 1, a - 1);
    }
}

proof fn lemma_nth_task_is_one(lines: Seq<Seq<char>>, ix: nat, a: int, b: int)
    requires
        is_nth_task(lines, ix, a),
        is_nth_task(lines, ix, b),
    ensures
        a == b,
{
    if a < b {
        lemma_tasks_grow(lines, a + 1, b);
    } else if b < a {
        lemma_tasks_grow(lines, b + 1, a);
    }
}

/// `markdown` with its `ix`-th task line (counted as [`segments`] does, fences skipped)
/// ticked or unticked; `None` when there is no such line.
pub fn toggle_task(markdown: &str, ix: usize) -> (r: Option<String>)
    ensures
        match r {
            Some(text) => toggled(markdown@, ix as nat) == Some(text@),
            None => toggled(markdown@, ix as nat) is None,
        },
{
    let chars = chars_of(markdown);
    let spans = piece_spans(chars.as_slice(), '\n');
    let ghost all = pieces(markdown@, '\n');
    let mut seen: usize = 0;
    let mut in_fence: bool = false;
    let mut flipped_at: Option<usize> = None;
    let mut out: Vec<char> = Vec::new();
    let mut n: usize = 0;
    let ghost mut done = all;
    while n < spans.len()
        invariant
            n <= spans.len(),
            chars@ == markdown@,
            spans_pieces(spans@, chars@, '\n'),
            all == pieces(markdown@, '\n'),
            in_fence == fenced(all, n as int),
            seen <= n,
            match flipped_at {
                None => seen == tasks_before(all, n as int) && seen <= ix && done == all,
                Some(at) => at < n && is_nth_task(all, ix as nat, at as int) && done
                    == all.update(at as int, flipped(all[at as int])),
            },
            done.len() == all.len(),
            out@ == joined(done.take(n as int), '\n'),
        decreases spans.len() - n,
    {
        let (from, to) = spans[n];
        let line = part(chars.as_slice(), from, to);
        assert(line@ == all[n as int]);
        proof {
            lemma_lead(line@);
        }
        let ghost before = out@;
        if n > 0 {
            out.push('\n');
        }
        let fence = fence_at(line);
        let mut flip = false;
        if !fence && !in_fence && flipped_at.is_none() {
            if let Some((_, at)) = task_at(line) {
                if seen == ix {
                    flip = true;
                    assert(is_nth_task(all, ix as nat, n as int));
                    let mut now: Vec<char> = Vec::new();
                    push_all(&mut now, line);
                    assert(now@ == line@);
                    now.set(
                        at - 3,
                        if line[at - 3] == ' ' {
                            'x'
                        } else {
                            ' '
                        },
                    );
                    assert(now@ == flipped(all[n as int]));
                    push_all(&mut out, now.as_slice());
                    flipped_at = Some(n);
                    proof {
                        done = all.update(n as int, flipped(all[n as int]));
                        assert(done.take(n as int) == all.take(n as int));
                    }
                } else {
                    seen += 1;
                }
            }
        }
        if !flip {
            push_all(&mut out, line);
        }
        if fence {
            in_fence = !in_fence;
        }
        proof {
            let some = done.take(n + 1);
            assert(some.drop_last() == done.take(n as int));
            if n > 0 {
                assert(out@ == before.push('\n') + done[n as int]);
            } else {
                assert(before == Seq::<char>::empty());
                assert(out@ == done[0]);
            }
            assert(out@ == joined(some, '\n'));
        }
        n += 1;
    }
    assert(done.take(n as int) == done);
    match flipped_at {
        Some(at) => {
            proof {
                let n = choose|n: int| is_nth_task(all, ix as nat, n);
                lemma_nth_task_is_one(all, ix as nat, at as int, n);
            }
            Some(string_of(out.as_slice()))
        },
        None => {
            proof {
                assert forall|k: int| !is_nth_task(all, ix as nat, k) by {
                    if is_nth_task(all, ix as nat, k) {
                        lemma_tasks_grow(all, k + 1, all.len() as int);
                    }
                }
            }
            None
        },
    }
}

/// How many backticks `s` starts with.
pub open spec fn ticks(s: Seq<char>) -> nat
    decreases s.len(),
{
    if s.len() > 0 && s[0] == '`' {
        1 + ticks(s.drop_first())
    } else {
        0
    }
}

/// The info string of the opening fence `line`: what stands behind its backticks, trimmed.
pub open spec fn info_of(line: Seq<char>) -> Seq<char> {
    let bare = trim_start(line);
    trim(bare.skip(ticks(bare) as int))
}

/// Some line of `prose` holds more than white space.
pub open spec fn has_text(prose: Seq<Seq<char>>) -> bool {
    exists|i: int| 0 <= i < prose.len() && trim(#[trigger] prose[i]).len() > 0
}

/// A text read up to some line: the pieces that are closed, and the one that is open.
pub struct Reading {
    /// The pieces that are closed.
    pub out: Seq<Piece>,
    /// The prose lines since the last piece.
    pub prose: Seq<Seq<char>>,
    /// The fenced block that is open: its info string and its lines.
    pub code: Option<(Seq<char>, Seq<Seq<char>>)>,
    /// How many task lines were read.
    pub tasks: nat,
}

impl Reading {
    /// The pieces with the open prose closed: kept where it holds text, dropped where it is
    /// blank.
    pub open spec fn with_prose(self) -> Seq<Piece> {
        if has_text(self.prose) {
            self.out.push(Piece::Prose(joined(self.prose, '\n')))
        } else {
            self.out
        }
    }

    /// The next line read.
    pub open spec fn then_line(self, line: Seq<char>) -> Reading {
        match self.code {
            Some((lang, body)) => if is_fence(line) {
                Reading {
                    out: self.out.push(Piece::Code { lang, body: joined(body, '\n') }),
                    code: None,
                    ..self
                }
            } else {
                Reading { code: Some((lang, body.push(line))), ..self }
            },
            None => if is_fence(line) {
                Reading {
                    out: self.with_prose(),
                    prose: Seq::empty(),
                    code: Some((info_of(line), Seq::empty())),
                    ..self
                }
            } else {
                match task_of(line) {
                    Some((done, text)) => Reading {
                        out: self.with_prose().push(Piece::Task { ix: self.tasks, done, text }),
                        prose: Seq::empty(),
                        tasks: self.tasks + 1,
                        ..self
                    },
                    None => Reading { prose: self.prose.push(line), ..self },
                }
            },
        }
    }

    /// Every piece: a block that is still open ends with the text.
    pub open spec fn pieces(self) -> Seq<Piece> {
        match self.code {
            Some((lang, body)) => Reading {
                out: self.out.push(Piece::Code { lang, body: joined(body, '\n') }),
                ..self
            }.with_prose(),
            None => self.with_prose(),
        }
    }
}

/// The lines `all` read from the first on.
pub open spec fn reading(all: Seq<Seq<char>>) -> Reading
    decreases all.len(),
{
    if all.len() == 0 {
        Reading { out: Seq::empty(), prose: Seq::empty(), code: None, tasks: 0 }
    } else {
        reading(all.drop_last()).then_line(all.last())
    }
}

/// The pieces of `markdown`.
pub open spec fn segments_of(markdown: Seq<char>) -> Seq<Piece> {
    reading(lines(markdown)).pieces()
}

/// The texts that the slices `parts` hold.
pub open spec fn texts(parts: Seq<&[char]>) -> Seq<Seq<char>> {
    parts.map_values(|p: &[char]| p@)
}

/// The pieces that the segments `all` say.
pub open spec fn said(all: Seq<Segment>) -> Seq<Piece> {
    all.map_values(|s: Segment| s@)
}

/// The texts of `parts` with a line feed between each and the next.
fn join_lines(parts: &Vec<&[char]>) -> (r: String)
    ensures
        r@ == joined(texts(parts@), '\n'),
{
    let mut out: Vec<char> = Vec::new();
    let mut i: usize = 0;
    let ghost all = texts(parts@);
    while i < parts.len()
        invariant
            i <= parts.len(),
            all == texts(parts@),
            out@ == joined(all.take(i as int), '\n'),
        decreases parts.len() - i,
    {
        let ghost before = out@;
        if i > 0 {
            out.push('\n');
        }
        push_all(&mut out, parts[i]);
        proof {
            let some = all.take(i + 1);
            assert(some.drop_last() == all.take(i as int));
            assert(some.last() == parts@[i as int]@);
            if i > 0 {
                assert(out@ == before.push('\n') + some.last());
            } else {
                assert(out@ == some[0]);
            }
        }
        i += 1;
    }
    assert(all.take(i as int) == all);
    string_of(out.as_slice())
}

/// Whether some line of `prose` holds more than white space.
fn any_text(prose: &Vec<&[char]>) -> (r: bool)
    ensures
        r == has_text(texts(prose@)),
{
    let mut i: usize = 0;
    let ghost all = texts(prose@);
    while i < prose.len()
        invariant
            i <= prose.len(),
            all == texts(prose@),
            forall|k: int| 0 <= k < i ==> trim(#[trigger] all[k]).len() == 0,
        decreases prose.len() - i,
    {
        let bare = trimmed(prose[i]);
        assert(all[i as int] == prose@[i as int]@);
        if bare.len() > 0 {
            return true;
        }
        i += 1;
    }
    false
}

/// The info string of the opening fence `line`.
fn fence_info(line: &[char]) -> (r: String)
    ensures
        r@ == info_of(line@),
{
    let bare = trimmed_start(line);
    let mut n: usize = 0;
    proof {
        assert(bare@.skip(0) == bare@);
    }
    while n < bare.len() && bare[n] == '`'
        invariant
            n <= bare.len(),
            ticks(bare@) == n + ticks(bare@.skip(n as int)),
        decreases bare.len() - n,
    {
        assert(bare@.skip(n as int).drop_first() == bare@.skip(n + 1));
        assert(bare@.skip(n as int)[0] == bare@[n as int]);
        n += 1;
    }
    assert(ticks(bare@.skip(n as int)) == 0) by {
        if n < bare@.len() {
            assert(bare@.skip(n as int)[0] == bare@[n as int]);
        }
    }
    string_of(trimmed(part(bare, n, bare.len())))
}

/// Closes the open prose: pushes it where it holds text, and empties it.
fn close_prose(out: &mut Vec<Segment>, prose: &mut Vec<&[char]>)
    ensures
        said(final(out)@) == (if has_text(texts(old(prose)@)) {
            said(old(out)@).push(Piece::Prose(joined(texts(old(prose)@), '\n')))
        } else {
            said(old(out)@)
        }),
        texts(final(prose)@) == Seq::<Seq<char>>::empty(),
{
    if any_text(prose) {
        let text = join_lines(prose);
        let ghost before = out@;
        let one = Segment::Prose(text);
        out.push(one);
        assert(said(out@) == said(before).push(one@));
    }
    prose.clear();
    assert(texts(prose@) == Seq::<Seq<char>>::empty());
}

/// Split `markdown` into prose, fenced blocks and task lines.
///
/// A fence is a line starting with three backticks, indentation ignored; an unclosed fence runs
/// to the end. A task line is one [`task_line`] reads, outside a fence. Blank prose is dropped.
pub fn segments(markdown: &str) -> (r: Vec<Segment>)
    ensures
        said(r@) == segments_of(markdown@),
{
    let chars = chars_of(markdown);
    let spans = line_spans(chars.as_slice());
    let ghost all = lines(markdown@);
    let mut out: Vec<Segment> = Vec::new();
    let mut prose: Vec<&[char]> = Vec::new();
    let mut code: Option<(String, Vec<&[char]>)> = None;
    let mut tasks: usize = 0;
    let mut n: usize = 0;
    proof {
        assert(said(out@) == Seq::<Piece>::empty());
        assert(texts(prose@) == Seq::<Seq<char>>::empty());
        assert(all.take(0) == Seq::<Seq<char>>::empty());
    }
    while n < spans.len()
        invariant
            n <= spans.len(),
            chars@ == markdown@,
            all == lines(markdown@),
            spans@.len() == all.len(),
            forall|i: int|
                0 <= i < spans@.len() ==> {
                    &&& (#[trigger] spans@[i]).0 <= spans@[i].1 <= chars@.len()
                    &&& chars@.subrange(spans@[i].0 as int, spans@[i].1 as int) == all[i]
                },
            tasks <= n,
            said(out@) == reading(all.take(n as int)).out,
            texts(prose@) == reading(all.take(n as int)).prose,
            tasks == reading(all.take(n as int)).tasks,
            match code {
                Some((lang, body)) => reading(all.take(n as int)).code == Some(
                    (lang@, texts(body@)),
                ),
                None => reading(all.take(n as int)).code is None,
            },
        decreases spans.len() - n,
    {
        let (from, to) = spans[n];
        let line = part(chars.as_slice(), from, to);
        let ghost was = reading(all.take(n as int));
        let ghost now = reading(all.take(n + 1));
        proof {
            assert(line@ == all[n as int]);
            assert(all.take(n + 1).drop_last() == all.take(n as int));
            assert(all.take(n + 1).last() == line@);
            assert(now == was.then_line(line@));
            lemma_lead(line@);
        }
        let fence = fence_at(line);
        match code.take() {
            Some((lang, body)) => {
                if fence {
                    let ghost before = out@;
                    let one = Segment::Code { lang, body: join_lines(&body) };
                    out.push(one);
                    assert(said(out@) == said(before).push(one@));
                } else {
                    let mut body = body;
                    let ghost before = body@;
                    body.push(line);
                    assert(texts(body@) == texts(before).push(line@));
                    code = Some((lang, body));
                }
            },
            None => {
                if fence {
                    close_prose(&mut out, &mut prose);
                    let body: Vec<&[char]> = Vec::new();
                    assert(texts(body@) == Seq::<Seq<char>>::empty());
                    code = Some((fence_info(line), body));
                } else {
                    match task_at(line) {
                        Some((done, at)) => {
                            close_prose(&mut out, &mut prose);
                            let ghost before = out@;
                            let text = string_of(part(line, at, line.len()));
                            assert(text@ == line@.skip(at as int));
                            let one = Segment::Task(Task { ix: tasks, done, text });
                            out.push(one);
                            assert(said(out@) == said(before).push(one@));
                            tasks += 1;
                        },
                        None => {
                            let ghost before = prose@;
                            prose.push(line);
                            assert(texts(prose@) == texts(before).push(line@));
                        },
                    }
                }
            },
        }
        n += 1;
    }
    assert(all.take(n as int) == all);
    if let Some((lang, body)) = code {
        let ghost before = out@;
        let one = Segment::Code { lang, body: join_lines(&body) };
        out.push(one);
        assert(said(out@) == said(before).push(one@));
    }
    close_prose(&mut out, &mut prose);
    out
}

/// A line with its tick turned over is a task line with the same text and the other tick.
proof fn lemma_flipped(line: Seq<char>)
    requires
        is_task(line),
    ensures
        flipped(line).len() == line.len(),
        lead(flipped(line)) == lead(line),
        is_task(flipped(line)),
        !is_fence(line),
        !is_fence(flipped(line)),
        task_of(flipped(line)) == Some((!task_of(line).unwrap().0, task_of(line).unwrap().1)),
        line[lead(line) as int + 3] != 'X' ==> flipped(flipped(line)) == line,
        !line.contains('\n') ==> !flipped(line).contains('\n'),
        without_return(flipped(line)) == flipped(without_return(line)),
{
    let at = lead(line) as int + 3;
    let next = flipped(line);
    lemma_lead(line);
    assert forall|i: int| 0 <= i < lead(line) implies is_white(#[trigger] next[i]) by {
        assert(next[i] == line[i]);
    }
    lemma_lead_is(next, lead(line));
    assert(next.skip(at + 3) == line.skip(at + 3));
    if line[at] != 'X' {
        assert(flipped(next) == line);
    }
    if !line.contains('\n') && next.contains('\n') {
        let k = choose|k: int| 0 <= k < next.len() && next[k] == '\n';
        assert(k != at);
        assert(line[k] == '\n');
        assert(line.contains('\n'));
    }
    lemma_bare_line(line);
    assert(without_return(next) == flipped(without_return(line)));
}

/// A carriage return at the end of a line changes nothing of what the line is.
proof fn lemma_bare_line(line: Seq<char>)
    ensures
        is_task(without_return(line)) == is_task(line),
        is_fence(without_return(line)) == is_fence(line),
        is_task(line) ==> lead(without_return(line)) == lead(line),
        is_task(line) ==> task_of(without_return(line)).unwrap().0 == task_of(line).unwrap().0,
        is_task(line) ==> task_of(without_return(line)).unwrap().1 == without_return(
            task_of(line).unwrap().1,
        ),
{
    let bare = without_return(line);
    lemma_lead(line);
    if bare.len() < line.len() {
        if lead(line) == line.len() {
            lemma_lead_is(bare, bare.len());
        } else {
            assert(is_white('\r'));
            assert(line[lead(line) as int] == bare[lead(line) as int] || lead(line) == bare.len());
            assert(lead(line) < bare.len());
            lemma_lead_is(bare, lead(line));
        }
        if is_task(line) {
            let at = lead(line) as int + 6;
            assert(without_return(line.skip(at)) == bare.skip(at));
        }
    }
}

/// What the lines `a` and `b` are agrees as far as the first `n`.
spec fn agree(a: Seq<Seq<char>>, b: Seq<Seq<char>>, n: int) -> bool {
    forall|i: int|
        0 <= i < n ==> is_task(#[trigger] a[i]) == is_task(b[i]) && is_fence(a[i]) == is_fence(b[i])
}

proof fn lemma_agree(a: Seq<Seq<char>>, b: Seq<Seq<char>>, n: int)
    requires
        agree(a, b, n),
        n >= 0,
    ensures
        fenced(a, n) == fenced(b, n),
        tasks_before(a, n) == tasks_before(b, n),
    decreases n,
{
    if n > 0 {
        lemma_agree(a, b, n - 1);
        assert(is_task(a[n - 1]) == is_task(b[n - 1]));
    }
}

/// The tasks among `pieces`, in their order.
pub open spec fn only_tasks(pieces: Seq<Piece>) -> Seq<Piece>
    decreases pieces.len(),
{
    if pieces.len() == 0 {
        Seq::empty()
    } else if pieces.last() is Task {
        only_tasks(pieces.drop_last()).push(pieces.last())
    } else {
        only_tasks(pieces.drop_last())
    }
}

/// The open tasks among the first `n` lines.
pub open spec fn task_list(lines: Seq<Seq<char>>, n: int) -> Seq<Piece>
    decreases n,
{
    if n <= 0 {
        Seq::empty()
    } else if open_task(lines, n - 1) {
        let (done, text) = task_of(lines[n - 1]).unwrap();
        task_list(lines, n - 1).push(Piece::Task { ix: tasks_before(lines, n - 1), done, text })
    } else {
        task_list(lines, n - 1)
    }
}

proof fn lemma_task_list_of_start(a: Seq<Seq<char>>, b: Seq<Seq<char>>, n: int)
    requires
        0 <= n <= a.len(),
        n <= b.len(),
        forall|i: int| 0 <= i < n ==> a[i] == b[i],
    ensures
        fenced(a, n) == fenced(b, n),
        tasks_before(a, n) == tasks_before(b, n),
        task_list(a, n) == task_list(b, n),
    decreases n,
{
    if n > 0 {
        lemma_task_list_of_start(a, b, n - 1);
    }
}

proof fn lemma_only_tasks_push(pieces: Seq<Piece>, one: Piece)
    ensures
        only_tasks(pieces.push(one)) == if one is Task {
            only_tasks(pieces).push(one)
        } else {
            only_tasks(pieces)
        },
{
    assert(pieces.push(one).drop_last() == pieces);
}

/// Reading the lines finds exactly their open tasks, in order.
proof fn lemma_reading_tasks(all: Seq<Seq<char>>)
    ensures
        reading(all).code is Some == fenced(all, all.len() as int),
        reading(all).tasks == tasks_before(all, all.len() as int),
        only_tasks(reading(all).out) == task_list(all, all.len() as int),
        only_tasks(reading(all).pieces()) == task_list(all, all.len() as int),
        task_list(all, all.len() as int).len() == tasks_before(all, all.len() as int),
    decreases all.len(),
{
    if all.len() > 0 {
        let init = all.drop_last();
        let line = all.last();
        let was = reading(init);
        lemma_reading_tasks(init);
        lemma_task_list_of_start(all, init, init.len() as int);
        if is_task(line) {
            lemma_flipped(line);
        }
        lemma_only_tasks_push(was.out, Piece::Prose(joined(was.prose, '\n')));
        if was.code is Some {
            let (lang, body) = was.code.unwrap();
            lemma_only_tasks_push(was.out, Piece::Code { lang, body: joined(body, '\n') });
        } else if is_task(line) {
            let (done, text) = task_of(line).unwrap();
            lemma_only_tasks_push(was.with_prose(), Piece::Task { ix: was.tasks, done, text });
        }
    }
    let now = reading(all);
    lemma_only_tasks_push(now.out, Piece::Prose(joined(now.prose, '\n')));
    if now.code is Some {
        let (lang, body) = now.code.unwrap();
        let one = Piece::Code { lang, body: joined(body, '\n') };
        lemma_only_tasks_push(now.out, one);
        lemma_only_tasks_push(now.out.push(one), Piece::Prose(joined(now.prose, '\n')));
    }
}

/// Lines and pieces between line feeds hold the same tasks.
proof fn lemma_lines_agree(s: Seq<char>)
    ensures
        lines(s).len() <= pieces(s, '\n').len(),
        agree(lines(s), pieces(s, '\n'), lines(s).len() as int),
        tasks_before(lines(s), lines(s).len() as int) == tasks_before(
            pieces(s, '\n'),
            pieces(s, '\n').len() as int,
        ),
{
    let all = pieces(s, '\n');
    lemma_pieces(s, '\n');
    assert forall|i: int| 0 <= i < lines(s).len() implies is_task(#[trigger] lines(s)[i])
        == is_task(all[i]) && is_fence(lines(s)[i]) == is_fence(all[i]) by {
        lemma_bare_line(all[i]);
    }
    lemma_agree(lines(s), all, lines(s).len() as int);
}

/// There is a task to toggle at each index below the number of tasks, and at no other.
proof fn lemma_nth_task(all: Seq<Seq<char>>, ix: nat, n: int)
    requires
        0 <= n <= all.len(),
        ix < tasks_before(all, n),
    ensures
        exists|k: int| k < n && #[trigger] is_nth_task(all, ix, k),
    decreases n,
{
    if ix < tasks_before(all, n - 1) {
        lemma_nth_task(all, ix, n - 1);
        let k = choose|k: int| k < n - 1 && #[trigger] is_nth_task(all, ix, k);
        assert(is_nth_task(all, ix, k));
    } else {
        assert(is_nth_task(all, ix, n - 1));
    }
}

/// The index a toggle takes is a place among the tasks that [`segments`] gives: the `k`-th task
/// has the index `k`, and a toggle finds a task at an index exactly where one of them has it.
pub proof fn law_toggle_counts_as_segments(markdown: Seq<char>, ix: nat)
    ensures
        toggled(markdown, ix) is Some <==> ix < only_tasks(segments_of(markdown)).len(),
        forall|k: int|
            0 <= k < only_tasks(segments_of(markdown)).len() ==> {
                let task = #[trigger] only_tasks(segments_of(markdown))[k];
                task is Task && task->ix == k
            },
{
    let all = pieces(markdown, '\n');
    let ls = lines(markdown);
    lemma_lines_agree(markdown);
    lemma_reading_tasks(ls);
    lemma_task_list_numbers(ls, ls.len() as int);
    if ix < tasks_before(all, all.len() as int) {
        lemma_nth_task(all, ix, all.len() as int);
    } else {
        assert forall|k: int| !is_nth_task(all, ix, k) by {
            if is_nth_task(all, ix, k) {
                lemma_tasks_grow(all, k + 1, all.len() as int);
            }
        }
    }
}

proof fn lemma_task_list_numbers(all: Seq<Seq<char>>, n: int)
    requires
        n >= 0,
    ensures
        task_list(all, n).len() == tasks_before(all, n),
        forall|k: int|
            0 <= k < task_list(all, n).len() ==> {
                let task = #[trigger] task_list(all, n)[k];
                task is Task && task->ix == k
            },
    decreases n,
{
    if n > 0 {
        lemma_task_list_numbers(all, n - 1);
    }
}

/// What a toggle of the task on the line `n` leaves of the pieces.
proof fn lemma_toggled_pieces(markdown: Seq<char>, ix: nat) -> (n: int)
    requires
        toggled(markdown, ix) is Some,
    ensures
        is_nth_task(pieces(markdown, '\n'), ix, n),
        pieces(toggled(markdown, ix).unwrap(), '\n') == pieces(markdown, '\n').update(
            n,
            flipped(pieces(markdown, '\n')[n]),
        ),
        is_nth_task(pieces(toggled(markdown, ix).unwrap(), '\n'), ix, n),
{
    let all = pieces(markdown, '\n');
    let n = choose|n: int| is_nth_task(all, ix, n);
    let next = all.update(n, flipped(all[n]));
    lemma_pieces(markdown, '\n');
    lemma_flipped(all[n]);
    assert forall|i: int| 0 <= i < next.len() implies !(#[trigger] next[i]).contains('\n') by {
        assert(!all[i].contains('\n'));
    }
    lemma_pieces_of_join(next, '\n');
    assert(agree(next, all, n));
    lemma_agree(next, all, n);
    n
}

/// A toggle undoes itself: toggling a task twice gives the text back. (A capital tick comes back
/// as a small one, so the task's box must not hold one.)
pub proof fn law_toggle_undoes_itself(markdown: Seq<char>, ix: nat)
    requires
        toggled(markdown, ix) is Some,
        forall|n: int|
            #[trigger] is_nth_task(pieces(markdown, '\n'), ix, n) ==> {
                let line = pieces(markdown, '\n')[n];
                line[lead(line) as int + 3] != 'X'
            },
    ensures
        toggled(toggled(markdown, ix).unwrap(), ix) == Some(markdown),
{
    let all = pieces(markdown, '\n');
    let next = toggled(markdown, ix).unwrap();
    let n = lemma_toggled_pieces(markdown, ix);
    lemma_flipped(all[n]);
    let m = choose|m: int| is_nth_task(pieces(next, '\n'), ix, m);
    lemma_nth_task_is_one(pieces(next, '\n'), ix, n, m);
    assert(pieces(next, '\n').update(n, flipped(pieces(next, '\n')[n])) == all);
    lemma_join_pieces(markdown, '\n');
}

/// A toggle flips one character of the text, a task's tick, and nothing else: an empty box gets a
/// small `x`, a ticked one is emptied.
pub proof fn law_toggle_changes_one_character(markdown: Seq<char>, ix: nat)
    requires
        toggled(markdown, ix) is Some,
    ensures
        exists|at: int|
            0 <= at < markdown.len() && #[trigger] markdown[at] != toggled(markdown, ix).unwrap()[at]
                && toggled(markdown, ix).unwrap() == markdown.update(
                at,
                toggled(markdown, ix).unwrap()[at],
            ) && (markdown[at] == ' ' && toggled(markdown, ix).unwrap()[at] == 'x' || (markdown[at]
                == 'x' || markdown[at] == 'X') && toggled(markdown, ix).unwrap()[at] == ' '),
{
    let all = pieces(markdown, '\n');
    let n = lemma_toggled_pieces(markdown, ix);
    let next = toggled(markdown, ix).unwrap();
    lemma_flipped(all[n]);
    lemma_join_pieces(markdown, '\n');
    lemma_join_pieces(next, '\n');
    let k = lead(all[n]) as int + 3;
    let at = lemma_join_update(all, n, k, flipped(all[n])[k], '\n');
    assert(markdown[at] == all[n][k]);
    assert(next == markdown.update(at, flipped(all[n])[k]));
}

/// Changing one character of a piece changes one character of the join.
proof fn lemma_join_update(parts: Seq<Seq<char>>, n: int, k: int, c: char, sep: char) -> (at: int)
    requires
        0 <= n < parts.len(),
        0 <= k < parts[n].len(),
    ensures
        0 <= at < joined(parts, sep).len(),
        joined(parts, sep)[at] == parts[n][k],
        joined(parts.update(n, parts[n].update(k, c)), sep) == joined(parts, sep).update(at, c),
    decreases parts.len(),
{
    let next = parts.update(n, parts[n].update(k, c));
    if parts.len() == 1 {
        k
    } else if n == parts.len() - 1 {
        assert(next.drop_last() == parts.drop_last());
        joined(parts.drop_last(), sep).len() + 1 + k
    } else {
        let at = lemma_join_update(parts.drop_last(), n, k, c, sep);
        assert(next.drop_last() == parts.drop_last().update(n, parts[n].update(k, c)));
        at
    }
}

/// The task with the index `ix` with its tick turned over; any other piece as it is.
pub open spec fn turned(piece: Piece, ix: nat) -> Piece {
    match piece {
        Piece::Task { ix: k, done, text } => if k == ix {
            Piece::Task { ix, done: !done, text }
        } else {
            piece
        },
        _ => piece,
    }
}

/// `pieces` with the tick of the task with the index `ix` turned over.
pub open spec fn all_turned(pieces: Seq<Piece>, ix: nat) -> Seq<Piece> {
    pieces.map_values(|p: Piece| turned(p, ix))
}

/// What a toggle leaves of the lines: the one with the task has its tick turned over.
proof fn lemma_toggled_lines(markdown: Seq<char>, ix: nat) -> (n: int)
    requires
        toggled(markdown, ix) is Some,
    ensures
        is_nth_task(lines(markdown), ix, n),
        lines(toggled(markdown, ix).unwrap()) == lines(markdown).update(
            n,
            flipped(lines(markdown)[n]),
        ),
{
    let next = toggled(markdown, ix).unwrap();
    let all = pieces(markdown, '\n');
    let n = lemma_toggled_pieces(markdown, ix);
    let (a, b) = (lines(markdown), lines(next));
    lemma_lines_agree(markdown);
    lemma_flipped(all[n]);
    lemma_bare_line(all[n]);
    lemma_pieces(markdown, '\n');
    assert(n < a.len()) by {
        if n == all.len() - 1 {
            assert(all.last().len() > 0);
        }
    }
    assert(b.len() == a.len());
    assert(b =~= a.update(n, flipped(a[n]))) by {
        let later = pieces(next, '\n');
        assert forall|i: int| 0 <= i < a.len() implies b[i] == a.update(n, flipped(a[n]))[i] by {
            if i != n {
                assert(later[i] == all[i]);
            } else {
                assert(later[n] == flipped(all[n]));
            }
        }
    }
    assert(agree(a, all, n)) by {
        assert(agree(a, all, a.len() as int));
    }
    lemma_agree(a, all, n);
    n
}

/// A toggle turns the tick of the `ix`-th task over and leaves every other task as it is.
pub proof fn law_toggle_flips_one_task(markdown: Seq<char>, ix: nat)
    requires
        toggled(markdown, ix) is Some,
    ensures
        ({
            let was = only_tasks(segments_of(markdown));
            let now = only_tasks(segments_of(toggled(markdown, ix).unwrap()));
            &&& ix < was.len()
            &&& now == was.update(
                ix as int,
                Piece::Task {
                    ix,
                    done: !was[ix as int]->done,
                    text: was[ix as int]->Task_text,
                },
            )
        }),
{
    let next = toggled(markdown, ix).unwrap();
    let (a, b) = (lines(markdown), lines(next));
    let n = lemma_toggled_lines(markdown, ix);
    law_toggle_counts_as_segments(markdown, ix);
    lemma_reading_tasks(a);
    lemma_reading_tasks(b);
    lemma_flipped(a[n]);
    lemma_flip_list(a, n, a.len() as int);
}

/// A toggle leaves every piece of the text as it was, prose, fenced blocks and tasks in their
/// places, but for the task with the index it took, whose tick is turned over.
pub proof fn law_toggle_keeps_every_other_piece(markdown: Seq<char>, ix: nat)
    requires
        toggled(markdown, ix) is Some,
    ensures
        segments_of(toggled(markdown, ix).unwrap()) == all_turned(segments_of(markdown), ix),
{
    let next = toggled(markdown, ix).unwrap();
    let (a, b) = (lines(markdown), lines(next));
    let n = lemma_toggled_lines(markdown, ix);
    lemma_turned_reading(a, n, a.len() as int);
    assert(a.take(a.len() as int) == a);
    assert(b.take(b.len() as int) == b);
    let was = reading(a);
    let now = reading(b);
    let prose = Piece::Prose(joined(was.prose, '\n'));
    lemma_turned_push(was.out, prose, ix);
    if was.code is Some {
        let (lang, body) = was.code.unwrap();
        let one = Piece::Code { lang, body: joined(body, '\n') };
        lemma_turned_push(was.out, one, ix);
        lemma_turned_push(was.out.push(one), prose, ix);
    }
}

proof fn lemma_turned_push(pieces: Seq<Piece>, one: Piece, ix: nat)
    ensures
        all_turned(pieces.push(one), ix) == all_turned(pieces, ix).push(turned(one, ix)),
{
}

/// Reading the lines with the tick of the task on the line `n` turned over gives the same pieces
/// with that tick turned over.
proof fn lemma_turned_reading(a: Seq<Seq<char>>, n: int, m: int)
    requires
        0 <= n < a.len(),
        0 <= m <= a.len(),
        open_task(a, n),
    ensures
        ({
            let b = a.update(n, flipped(a[n]));
            let was = reading(a.take(m));
            reading(b.take(m)) == Reading { out: all_turned(was.out, tasks_before(a, n)), ..was }
        }),
    decreases m,
{
    let b = a.update(n, flipped(a[n]));
    let ix = tasks_before(a, n);
    if m == 0 {
        assert(all_turned(Seq::<Piece>::empty(), ix) == Seq::<Piece>::empty());
    } else {
        let line = a[m - 1];
        let init = a.take(m - 1);
        let was = reading(init);
        lemma_turned_reading(a, n, m - 1);
        assert(a.take(m).drop_last() == init);
        assert(b.take(m).drop_last() == b.take(m - 1));
        assert(b.take(m).last() == b[m - 1]);
        lemma_reading_tasks(init);
        lemma_task_list_of_start(a, init, m - 1);
        let prose = Piece::Prose(joined(was.prose, '\n'));
        lemma_turned_push(was.out, prose, ix);
        if m - 1 == n {
            lemma_flipped(line);
        }
        if was.code is Some {
            let (lang, body) = was.code.unwrap();
            lemma_turned_push(was.out, Piece::Code { lang, body: joined(body, '\n') }, ix);
        } else if is_task(line) {
            let (done, text) = task_of(line).unwrap();
            let one = Piece::Task { ix: was.tasks, done, text };
            lemma_turned_push(was.with_prose(), one, ix);
            if m - 1 != n && was.tasks == ix {
                assert(is_nth_task(a, ix, m - 1));
                assert(is_nth_task(a, ix, n));
                lemma_nth_task_is_one(a, ix, m - 1, n);
            }
        }
    }
}

proof fn lemma_flip_list(a: Seq<Seq<char>>, n: int, m: int)
    requires
        0 <= n < a.len(),
        0 <= m <= a.len(),
        open_task(a, n),
    ensures
        ({
            let b = a.update(n, flipped(a[n]));
            let ix = tasks_before(a, n);
            &&& fenced(b, m) == fenced(a, m)
            &&& tasks_before(b, m) == tasks_before(a, m)
            &&& m <= n ==> task_list(b, m) == task_list(a, m)
            &&& m > n ==> {
                &&& ix < task_list(a, m).len()
                &&& task_list(a, m)[ix as int] is Task
                &&& task_list(b, m) == task_list(a, m).update(
                    ix as int,
                    Piece::Task {
                        ix,
                        done: !task_list(a, m)[ix as int]->done,
                        text: task_list(a, m)[ix as int]->Task_text,
                    },
                )
            }
        }),
    decreases m,
{
    let b = a.update(n, flipped(a[n]));
    lemma_flipped(a[n]);
    if m > 0 {
        lemma_flip_list(a, n, m - 1);
        lemma_task_list_numbers(a, m - 1);
        if m - 1 == n {
            assert(task_list(b, m) == task_list(a, m).update(
                tasks_before(a, n) as int,
                Piece::Task {
                    ix: tasks_before(a, n),
                    done: !task_of(a[n]).unwrap().0,
                    text: task_of(a[n]).unwrap().1,
                },
            ));
        }
    }
}

/// What a screen reader says of a task's box.
pub open spec fn task_label_of(done: bool, text: Seq<char>) -> Seq<char> {
    (if done {
        "Done: "@
    } else {
        "To do: "@
    }) + text
}

/// What a screen reader says of the box of `task`.
pub fn task_label(task: &Task) -> (r: String)
    ensures
        r@ == task_label_of(task.done, task.text@),
{
    let mut label = String::from_str(
        if task.done {
            "Done: "
        } else {
            "To do: "
        },
    );
    label.append(task.text.as_str());
    label
}

/// What pressing a button of a fenced block does with its code.
#[derive(Clone, Copy, PartialEq, Eq, Structural, Debug)]
pub enum Press {
    /// Put it on the clipboard.
    Copy,
    /// Run it in a shell.
    Run,
}

impl Press {
    /// What a screen reader says of the button, and what it shows.
    pub open spec fn says(self) -> (Seq<char>, Seq<char>) {
        match self {
            Press::Copy => ("Copy code"@, "copy"@),
            Press::Run => ("Run in shell"@, "run"@),
        }
    }

    /// What a screen reader says of the button, and what it shows.
    pub fn look(self) -> (r: (&'static str, &'static str))
        ensures
            (r.0@, r.1@) == self.says(),
    {
        match self {
            Press::Copy => ("Copy code", "copy"),
            Press::Run => ("Run in shell", "run"),
        }
    }
}

/// A fenced block as its own element: its language, its buttons in order, and the code that is
/// shown and that each of them takes.
#[derive(Debug, PartialEq, Eq)]
pub struct CodeBlock {
    pub lang: String,
    pub buttons: Vec<Press>,
    pub code: String,
}

/// A fenced block with its buttons: it can always be copied, and run where there is a shell to run
/// it in (`run`).
pub fn code_block(lang: &str, body: &str, run: bool) -> (r: CodeBlock)
    ensures
        r.lang@ == lang@,
        r.code@ == body@,
        r.buttons@ == (if run {
            seq![Press::Run, Press::Copy]
        } else {
            seq![Press::Copy]
        }),
{
    let mut buttons: Vec<Press> = Vec::new();
    if run {
        buttons.push(Press::Run);
    }
    buttons.push(Press::Copy);
    assert(buttons@ =~= (if run {
        seq![Press::Run, Press::Copy]
    } else {
        seq![Press::Copy]
    }));
    CodeBlock { lang: lang.to_owned(), buttons, code: body.to_owned() }
}

} // verus!
