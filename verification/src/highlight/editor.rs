//! The colours of a text while it is edited.
//!
//! An edit first splices the list of lines (the edited lines go plain, the lines after it keep
//! their colours at their new rows), then a parse of the whole text is due once typing pauses for
//! [`SETTLE`], and its lines replace the list when it lands, unless a newer edit has overtaken it.
use vstd::prelude::*;

use crate::highlight::{Span, Swatch, Syntax, Token};
use crate::text::{
    byte_len, bytes, chars_of, lemma_starts_end, lemma_starts_grow, part, piece_spans, pieces,
    spans_pieces, start_of, string_of,
};
use crate::time::Duration;

verus! {

/// How long typing must pause before the text is parsed again, in milliseconds. Below a
/// keystroke's gap at speed, so colours catch up between words, not between letters.
pub const SETTLE: u64 = 60;

/// A place in a text: its row and its column.
#[derive(Clone, Copy, PartialEq, Eq, Debug)]
pub struct Point {
    pub row: usize,
    pub column: usize,
}

/// An edit: the text from its start to its old end became the text from its start to its new
/// end.
#[derive(Clone, Copy, PartialEq, Eq, Debug)]
pub struct InputEdit {
    pub start_position: Point,
    pub old_end_position: Point,
    pub new_end_position: Point,
}

/// How a run of text is drawn; the default is how plain text is.
#[derive(Clone, Copy, PartialEq, Eq, Structural, Debug)]
pub struct Style {
    /// A colour of its own.
    pub color: Option<Swatch>,
    /// In the italic face.
    pub italic: bool,
    /// In the bold face.
    pub bold: bool,
}

/// How plain text is drawn.
pub open spec fn plain_style() -> Style {
    Style { color: None, italic: false, bold: false }
}

/// The style of one span; the default style for plain text.
pub open spec fn style_of(span: Span) -> Style {
    if span.token == Token::Plain && !span.italic && !span.bold {
        plain_style()
    } else {
        Style { color: Some(span.token.swatch()), italic: span.italic, bold: span.bold }
    }
}

/// The style of one span; the default style for plain text.
fn style(span: Span) -> (r: Style)
    ensures
        r == style_of(span),
{
    if span.token == Token::Plain && !span.italic && !span.bold {
        Style { color: None, italic: false, bold: false }
    } else {
        Style { color: Some(span.token.color()), italic: span.italic, bold: span.bold }
    }
}

/// The row an edit starts on, at the end of `n` rows at most.
pub open spec fn edit_start(edit: InputEdit, n: nat) -> nat {
    if edit.start_position.row <= n {
        edit.start_position.row as nat
    } else {
        n
    }
}

/// The row behind those an edit took away, of `n` rows.
pub open spec fn edit_end(edit: InputEdit, n: nat) -> nat {
    let end = edit.old_end_position.row + 1;
    if end <= edit_start(edit, n) {
        edit_start(edit, n)
    } else if end <= n {
        end as nat
    } else {
        n
    }
}

/// The rows an edit left in their place.
pub open spec fn edit_rows(edit: InputEdit) -> nat {
    let (from, to) = (edit.start_position.row, edit.new_end_position.row);
    if to <= from {
        1
    } else if to - from == usize::MAX {
        usize::MAX as nat
    } else {
        (to - from + 1) as nat
    }
}

/// The rows `lines` after an edit: the rows it touched become as many plain rows as it left.
pub open spec fn spliced(lines: Seq<Seq<Span>>, edit: InputEdit) -> Seq<Seq<Span>> {
    lines.take(edit_start(edit, lines.len()) as int) + Seq::new(
        edit_rows(edit),
        |i: int| Seq::<Span>::empty(),
    ) + lines.skip(edit_end(edit, lines.len()) as int)
}

/// The rows that each vector of `all` holds.
pub open spec fn rows(all: Seq<Vec<Span>>) -> Seq<Seq<Span>> {
    all.map_values(|v: Vec<Span>| v@)
}

/// `lines` after an edit: the rows it touched become as many plain rows as it left, so the
/// colours below it move with their text instead of painting over the wrong lines.
pub fn splice(lines: &mut Vec<Vec<Span>>, edit: &InputEdit)
    ensures
        rows(final(lines)@) == spliced(rows(old(lines)@), *edit),
{
    let n: usize = lines.len();
    let start: usize = if edit.start_position.row <= n {
        edit.start_position.row
    } else {
        n
    };
    let past: usize = edit.old_end_position.row.saturating_add(1);
    let capped: usize = if past <= n {
        past
    } else {
        n
    };
    let old_end: usize = if capped >= start {
        capped
    } else {
        start
    };
    let new_rows: usize = edit.new_end_position.row.saturating_sub(
        edit.start_position.row,
    ).saturating_add(1);
    let ghost was = lines@;
    assert(rows(was).len() == n);
    assert(old_end == edit_end(*edit, n as nat));
    let mut below = lines.split_off(old_end);
    lines.truncate(start);
    let mut i: usize = 0;
    while i < new_rows
        invariant
            i <= new_rows,
            rows(lines@) == rows(was).take(start as int) + Seq::new(
                i as nat,
                |k: int| Seq::<Span>::empty(),
            ),
        decreases new_rows - i,
    {
        let ghost before = lines@;
        let one: Vec<Span> = Vec::new();
        lines.push(one);
        assert(one@ == Seq::<Span>::empty());
        assert(rows(lines@) == rows(before).push(Seq::<Span>::empty()));
        i += 1;
    }
    let ghost before = lines@;
    lines.append(&mut below);
    assert(rows(lines@) == rows(before) + rows(was).skip(old_end as int));
}

/// A line below an edit keeps its colours, moved by the rows the edit added or took.
pub proof fn law_colours_below_an_edit_move_with_their_lines(
    lines: Seq<Seq<Span>>,
    edit: InputEdit,
    row: int,
)
    requires
        edit_end(edit, lines.len()) <= row < lines.len(),
    ensures
        ({
            let moved = row - edit_end(edit, lines.len()) + edit_start(edit, lines.len())
                + edit_rows(edit);
            moved < spliced(lines, edit).len() && spliced(lines, edit)[moved] == lines[row]
        }),
{
}

/// A line above an edit keeps its colours, and the rows the edit left are plain.
pub proof fn law_an_edit_leaves_the_lines_above_and_plain_rows(
    lines: Seq<Seq<Span>>,
    edit: InputEdit,
    row: int,
)
    requires
        0 <= row < edit_start(edit, lines.len()) + edit_rows(edit),
    ensures
        row < edit_start(edit, lines.len()) ==> spliced(lines, edit)[row] == lines[row],
        row >= edit_start(edit, lines.len()) ==> spliced(lines, edit)[row] == Seq::<Span>::empty(),
{
}

/// A run of a text and how it is drawn.
#[derive(Clone, Copy, PartialEq, Eq, Structural, Debug)]
pub struct StyledRun {
    /// Its first byte.
    pub start: usize,
    /// The byte behind its last.
    pub end: usize,
    /// How it is drawn.
    pub style: Style,
}

/// How the byte `at` of a line is drawn. A span of no bytes ends the colours.
pub open spec fn style_in_line(spans: Seq<Span>, at: nat) -> Style
    decreases spans.len(),
{
    if spans.len() == 0 || spans[0].len == 0 {
        plain_style()
    } else if at < spans[0].len {
        style_of(spans[0])
    } else {
        style_in_line(spans.drop_first(), (at - spans[0].len) as nat)
    }
}

/// The byte `at` of the text is one of the row `row`, its line feed included.
pub open spec fn on_row(parts: Seq<Seq<char>>, row: int, at: nat) -> bool {
    0 <= row < parts.len() && start_of(parts, row) <= at <= start_of(parts, row) + bytes(parts[row])
}

/// How the byte `at` of the text is drawn: as the spans of its row say, plain where the row is
/// not parsed, at a line feed, and past the end.
pub open spec fn style_at(text: Seq<char>, lines: Seq<Seq<Span>>, at: nat) -> Style {
    let parts = pieces(text, '\n');
    if at >= bytes(text) {
        plain_style()
    } else {
        let row = choose|row: int| on_row(parts, row, at);
        let column = (at - start_of(parts, row)) as nat;
        if row < lines.len() && column < bytes(parts[row]) {
            style_in_line(lines[row], column)
        } else {
            plain_style()
        }
    }
}

/// `runs` follow one another from `from` to `to`, none of them empty.
pub open spec fn tile(runs: Seq<StyledRun>, from: int, to: int) -> bool {
    &&& runs.len() == 0 ==> from == to
    &&& runs.len() > 0 ==> runs[0].start == from && runs.last().end == to
    &&& forall|i: int| 0 <= i < runs.len() ==> (#[trigger] runs[i]).start < runs[i].end
    &&& forall|i: int, j: int|
        0 <= i && j == i + 1 && j < runs.len() ==> (#[trigger] runs[i]).end == (
        #[trigger] runs[j]).start
}

/// `runs` say of each of their bytes how it is drawn, and only at the end of the text do two
/// neighbours look the same, where one always ends.
pub open spec fn styled(
    runs: Seq<StyledRun>,
    text: Seq<char>,
    lines: Seq<Seq<Span>>,
) -> bool {
    &&& forall|i: int, at: nat|
        0 <= i < runs.len() && (#[trigger] runs[i]).start <= at < runs[i].end ==> runs[i].style
            == #[trigger] style_at(text, lines, at)
    &&& forall|i: int, j: int|
        0 <= i && j == i + 1 && j < runs.len() && (#[trigger] runs[i]).style == (
        #[trigger] runs[j]).style ==> runs[j].start == bytes(text)
    &&& forall|i: int|
        0 <= i < runs.len() ==> !((#[trigger] runs[i]).start < bytes(text) < runs[i].end)
}

/// One editor's highlighter.
pub struct EditorHighlighter<'a> {
    syntax: Syntax<'a>,
    /// The text as of the last edit.
    text: String,
    /// Where each of its rows starts, and how many bytes it has.
    starts: Vec<usize>,
    sizes: Vec<usize>,
    len: usize,
    /// Spans per line of the text, plain (empty) where an edit has not been parsed yet.
    lines: Vec<Vec<Span>>,
    /// Bumped by every edit; a parse that started before the latest edit is dropped.
    generation: u64,
}

/// What a highlighter knows.
pub struct Editing {
    /// The grammar's name.
    pub syntax: Seq<char>,
    pub text: Seq<char>,
    pub lines: Seq<Seq<Span>>,
    pub generation: u64,
}

impl Editing {
    /// The text changed, by an edit or whole.
    pub open spec fn then_update(self, edit: Option<InputEdit>, text: Seq<char>) -> Editing {
        Editing {
            text,
            lines: match edit {
                Some(edit) => spliced(self.lines, edit),
                None => self.lines,
            },
            generation: if self.generation == u64::MAX {
                0
            } else {
                (self.generation + 1) as u64
            },
            ..self
        }
    }

    /// A parse landed: its lines count unless an edit has overtaken it.
    pub open spec fn then_parsed(self, generation: u64, lines: Seq<Seq<Span>>) -> Editing {
        if self.generation == generation {
            Editing { lines, ..self }
        } else {
            self
        }
    }
}

impl<'a> View for EditorHighlighter<'a> {
    type V = Editing;

    closed spec fn view(&self) -> Editing {
        Editing {
            syntax: self.syntax@,
            text: self.text@,
            lines: rows(self.lines@),
            generation: self.generation,
        }
    }
}

/// Where each row of `text` starts and how many bytes it has.
pub fn rows_of(text: &str) -> (r: (Vec<usize>, Vec<usize>))
    ensures
        is_index(text@, r.0@, r.1@),
        bytes(text@) <= usize::MAX,
{
    let chars = chars_of(text);
    let places = piece_spans(chars.as_slice(), '\n');
    let ghost parts = pieces(text@, '\n');
    let size: usize = byte_len(text);
    let mut starts: Vec<usize> = Vec::new();
    let mut sizes: Vec<usize> = Vec::new();
    let mut at: usize = 0;
    let mut i: usize = 0;
    proof {
        lemma_starts_end(text@, '\n');
    }
    while i < places.len()
        invariant
            i <= places.len(),
            chars@ == text@,
            parts == pieces(text@, '\n'),
            spans_pieces(places@, chars@, '\n'),
            size == bytes(text@),
            start_of(parts, parts.len() as int) == size + 1,
            i < places.len() ==> at == start_of(parts, i as int),
            starts@.len() == i,
            sizes@.len() == i,
            forall|k: int| 0 <= k < i ==> #[trigger] starts@[k] == start_of(parts, k),
            forall|k: int| 0 <= k < i ==> #[trigger] sizes@[k] == bytes(parts[k]),
        decreases places.len() - i,
    {
        let (from, to) = places[i];
        let row = string_of(part(chars.as_slice(), from, to));
        let len: usize = byte_len(row.as_str());
        assert(row@ == parts[i as int]);
        starts.push(at);
        sizes.push(len);
        proof {
            lemma_starts_grow(parts, i as int, parts.len() as int);
            if i + 1 < parts.len() {
                lemma_starts_grow(parts, i + 1, parts.len() as int);
            }
        }
        at = at.saturating_add(len).saturating_add(1);
        i += 1;
    }
    (starts, sizes)
}

/// `starts` and `sizes` say where each row of `text` starts and how many bytes it has.
pub open spec fn is_index(text: Seq<char>, starts: Seq<usize>, sizes: Seq<usize>) -> bool {
    let parts = pieces(text, '\n');
    &&& starts.len() == parts.len()
    &&& sizes.len() == parts.len()
    &&& forall|k: int| 0 <= k < parts.len() ==> #[trigger] starts[k] == start_of(parts, k)
    &&& forall|k: int| 0 <= k < parts.len() ==> #[trigger] sizes[k] == bytes(parts[k])
}

/// A byte of the text is on one row.
proof fn lemma_row(text: Seq<char>, row: int, at: nat)
    requires
        on_row(pieces(text, '\n'), row, at),
    ensures
        forall|other: int| on_row(pieces(text, '\n'), other, at) ==> other == row,
{
    let parts = pieces(text, '\n');
    assert forall|other: int| on_row(parts, other, at) implies other == row by {
        if other < row {
            lemma_starts_grow(parts, other, row);
        } else if row < other {
            lemma_starts_grow(parts, row, other);
        }
    }
}

/// `at` moved into the range from `from` to `to`.
pub open spec fn clamp(at: int, from: int, to: int) -> int {
    if at < from {
        from
    } else if at > to {
        to
    } else {
        at
    }
}

/// Adds the run from `a` to `b`, cut to the range, to `out`; a run that continues the last one in
/// the same style extends it.
#[verifier::rlimit(40)]
fn push_run(
    out: &mut Vec<StyledRun>,
    a: usize,
    b: usize,
    style: Style,
    from: usize,
    to: usize,
    Ghost(text): Ghost<Seq<char>>,
    Ghost(lines): Ghost<Seq<Seq<Span>>>,
)
    requires
        from <= to,
        a <= b <= bytes(text),
        tile(old(out)@, from as int, clamp(a as int, from as int, to as int)),
        styled(old(out)@, text, lines),
        forall|at: nat| a <= at < b ==> #[trigger] style_at(text, lines, at) == style,
    ensures
        tile(final(out)@, from as int, clamp(b as int, from as int, to as int)),
        styled(final(out)@, text, lines),
{
    let start: usize = if a < from {
        from
    } else {
        a
    };
    let end: usize = if b > to {
        to
    } else {
        b
    };
    if start >= end {
        return;
    }
    let n: usize = out.len();
    let ghost was = out@;
    if n > 0 && out[n - 1].style.color == style.color && out[n - 1].style.italic == style.italic
        && out[n - 1].style.bold == style.bold {
        let last = out[n - 1];
        assert(last.style == style);
        assert(last.end == start);
        out.set(n - 1, StyledRun { start: last.start, end, style });
        proof {
            assert(out@.last().end == end);
            assert forall|i: int, at: nat|
                0 <= i < out@.len() && (#[trigger] out@[i]).start <= at < out@[i].end implies out@[i].style
                == #[trigger] style_at(text, lines, at) by {
                if i < n - 1 {
                    assert(was[i].style == style_at(text, lines, at));
                } else if at < last.end {
                    assert(was[n - 1].style == style_at(text, lines, at));
                }
            }
        }
    } else {
        out.push(StyledRun { start, end, style });
        proof {
            assert(forall|i: int| 0 <= i < n ==> out@[i] == was[i]);
            assert forall|i: int, at: nat|
                0 <= i < out@.len() && (#[trigger] out@[i]).start <= at < out@[i].end implies out@[i].style
                == #[trigger] style_at(text, lines, at) by {
                if i < n {
                    assert(was[i].style == style_at(text, lines, at));
                }
            }
        }
    }
}

/// No run starts before the first.
proof fn lemma_tile_starts(runs: Seq<StyledRun>, from: int, to: int, i: int)
    requires
        tile(runs, from, to),
        0 <= i < runs.len(),
    ensures
        from <= runs[i].start,
    decreases i,
{
    if i > 0 {
        lemma_tile_starts(runs, from, to, i - 1);
        assert(runs[i - 1].end == runs[i].start);
    }
}

impl<'a> EditorHighlighter<'a> {
    /// The rows are those of the text.
    #[verifier::type_invariant]
    spec fn wf(self) -> bool {
        &&& is_index(self.text@, self.starts@, self.sizes@)
        &&& self.len == bytes(self.text@)
    }

    /// Nothing parsed yet: plain text until the first parse lands.
    pub fn new(syntax: Syntax<'a>) -> (r: EditorHighlighter<'a>)
        ensures
            r@ == (Editing {
                syntax: syntax@,
                text: Seq::empty(),
                lines: Seq::empty(),
                generation: 0,
            }),
    {
        let text = String::new();
        let (starts, sizes) = rows_of(text.as_str());
        let len: usize = byte_len(text.as_str());
        let r = EditorHighlighter {
            syntax,
            text,
            starts,
            sizes,
            len,
            lines: Vec::new(),
            generation: 0,
        };
        assert(r@.lines == Seq::<Seq<Span>>::empty());
        r
    }

    /// The grammar's name.
    pub fn language(&self) -> (r: &str)
        ensures
            r@ == self@.syntax,
    {
        self.syntax.name()
    }

    /// The text changed. Says which parse of it is due, and how long to wait before: the first
    /// parse (a text set whole) starts at once, an edit waits for a pause.
    pub fn update(&mut self, edit: Option<&InputEdit>, text: &str) -> (r: (u64, Option<Duration>))
        ensures
            final(self)@ == old(self)@.then_update(
                match edit {
                    Some(e) => Some(*e),
                    None => None,
                },
                text@,
            ),
            r.0 == final(self)@.generation,
            r.1 is Some == edit is Some,
            r.1 matches Some(wait) ==> wait@ == SETTLE * 1_000_000,
    {
        proof {
            use_type_invariant(&*self);
        }
        let (starts, sizes) = rows_of(text);
        let mut lines: Vec<Vec<Span>> = Vec::new();
        std::mem::swap(&mut lines, &mut self.lines);
        let mut settle: Option<Duration> = None;
        if let Some(edit) = edit {
            splice(&mut lines, edit);
            settle = Some(Duration::from_millis(SETTLE));
        }
        let generation: u64 = self.generation.wrapping_add(1);
        *self = EditorHighlighter {
            syntax: self.syntax.clone(),
            text: text.to_owned(),
            starts,
            sizes,
            len: byte_len(text),
            lines,
            generation,
        };
        (generation, settle)
    }

    /// A parse that was due as `generation` landed. Says whether its lines count: not where an
    /// edit has overtaken it.
    pub fn parsed(&mut self, generation: u64, lines: Vec<Vec<Span>>) -> (r: bool)
        ensures
            final(self)@ == old(self)@.then_parsed(generation, rows(lines@)),
            r == (old(self)@.generation == generation),
    {
        proof {
            use_type_invariant(&*self);
        }
        if self.generation != generation {
            return false;
        }
        self.lines = lines;
        true
    }

    /// How each byte from `from` to `to` is drawn, as runs that cover them exactly.
    pub fn styles(&self, from: usize, to: usize) -> (r: Vec<StyledRun>)
        ensures
            from >= to ==> r@.len() == 0,
            from < to ==> tile(r@, from as int, to as int),
            styled(r@, self@.text, self@.lines),
    {
        proof {
            use_type_invariant(self);
        }
        let mut out: Vec<StyledRun> = Vec::new();
        if from >= to {
            return out;
        }
        let ghost text = self.text@;
        let ghost lines = rows(self.lines@);
        let ghost parts = pieces(text, '\n');
        let end: usize = if to < self.len {
            to
        } else {
            self.len
        };
        let first: usize = if from < self.len {
            from
        } else {
            self.len
        };
        proof {
            lemma_starts_end(text, '\n');
        }
        let n: usize = self.starts.len();
        let mut row: usize = 0;
        while row + 1 < n && self.starts[row + 1] <= first
            invariant
                self.wf(),
                text == self.text@,
                parts == pieces(text, '\n'),
                n == parts.len(),
                n == self.starts@.len(),
                row < n,
                start_of(parts, row as int) <= first,
            decreases n - row,
        {
            row += 1;
        }
        let mut at: usize = self.starts[row];
        while at < end
            invariant
                self.wf(),
                text == self.text@,
                lines == rows(self.lines@),
                parts == pieces(text, '\n'),
                n == parts.len(),
                n == self.starts@.len(),
                from < to,
                end == clamp(to as int, 0, self.len as int),
                self.len == bytes(text),
                start_of(parts, n as int) == bytes(text) + 1,
                row <= n,
                row < n ==> at == start_of(parts, row as int),
                row == n ==> at == self.len,
                at <= self.len,
                tile(out@, from as int, clamp(at as int, from as int, to as int)),
                styled(out@, text, lines),
            decreases self.len - at,
        {
            let size: usize = self.sizes[row];
            proof {
                lemma_starts_grow(parts, row as int, n as int);
            }
            let line_end: usize = at + size;
            let mut here: usize = at;
            if row < self.lines.len() {
                let line = &self.lines[row];
                assert(lines[row as int] == line@);
                let mut k: usize = 0;
                let mut going: bool = true;
                proof {
                    assert(line@.skip(0) == line@);
                }
                while going && k < line.len()
                    invariant
                        self.wf(),
                        text == self.text@,
                        lines == rows(self.lines@),
                        parts == pieces(text, '\n'),
                        n == parts.len(),
                        from < to,
                        self.len == bytes(text),
                        row < n,
                        row < lines.len(),
                        lines[row as int] == line@,
                        at == start_of(parts, row as int),
                        size == bytes(parts[row as int]),
                        line_end == at + size,
                        line_end <= self.len,
                        at <= here <= line_end,
                        k <= line@.len(),
                        going ==> forall|c: nat|
                            here - at <= c < size ==> #[trigger] style_in_line(line@, c)
                                == style_in_line(
                                line@.skip(k as int),
                                (c - (here - at)) as nat,
                            ),
                        !going ==> forall|c: nat|
                            here - at <= c < size ==> #[trigger] style_in_line(line@, c)
                                == plain_style(),
                        tile(out@, from as int, clamp(here as int, from as int, to as int)),
                        styled(out@, text, lines),
                    decreases
                        line.len() - k,
                        if going {
                            1int
                        } else {
                            0int
                        },
                {
                    let span = line[k];
                    let past: usize = here.saturating_add(span.len);
                    let next: usize = if past < line_end {
                        past
                    } else {
                        line_end
                    };
                    let ghost rest = line@.skip(k as int);
                    assert(rest[0] == span);
                    assert(rest.drop_first() == line@.skip(k + 1));
                    if next <= here {
                        proof {
                            assert forall|c: nat| here - at <= c < size implies #[trigger] style_in_line(
                                line@,
                                c,
                            ) == plain_style() by {
                                assert(span.len == 0);
                            }
                        }
                        going = false;
                    } else {
                        let look = style(span);
                        proof {
                            assert forall|p: nat| here <= p < next implies #[trigger] style_at(
                                text,
                                lines,
                                p,
                            ) == look by {
                                assert(on_row(parts, row as int, p));
                                lemma_row(text, row as int, p);
                                let c = (p - at) as nat;
                                assert(style_in_line(line@, c) == style_in_line(
                                    rest,
                                    (c - (here - at)) as nat,
                                ));
                            }
                        }
                        push_run(
                            &mut out,
                            here,
                            next,
                            look,
                            from,
                            to,
                            Ghost(text),
                            Ghost(lines),
                        );
                        proof {
                            assert forall|c: nat| next - at <= c < size implies #[trigger] style_in_line(
                                line@,
                                c,
                            ) == style_in_line(
                                line@.skip(k + 1),
                                (c - (next - at)) as nat,
                            ) by {
                                assert(style_in_line(line@, c) == style_in_line(
                                    rest,
                                    (c - (here - at)) as nat,
                                ));
                            }
                        }
                        here = next;
                        k += 1;
                    }
                }
                proof {
                    assert forall|c: nat| here - at <= c < size implies #[trigger] style_in_line(
                        line@,
                        c,
                    ) == plain_style() by {
                        if going {
                            assert(line@.skip(k as int).len() == 0);
                        }
                    }
                }
            }
            // The rest of the line and its newline.
            let next: usize = if row + 1 < n {
                self.starts[row + 1]
            } else {
                self.len
            };
            proof {
                if row + 1 == n {
                    assert(next == line_end);
                } else {
                    assert(next == line_end + 1);
                    lemma_starts_grow(parts, row + 1, n as int);
                }
                assert forall|p: nat| here <= p < next implies #[trigger] style_at(text, lines, p)
                    == plain_style() by {
                    assert(on_row(parts, row as int, p));
                    lemma_row(text, row as int, p);
                }
            }
            push_run(
                &mut out,
                here,
                next,
                Style { color: None, italic: false, bold: false },
                from,
                to,
                Ghost(text),
                Ghost(lines),
            );
            at = next;
            row = row + 1;
        }
        // What the text does not reach is plain, so the runs cover the range exactly.
        let covered: usize = if out.len() == 0 {
            from
        } else {
            out[out.len() - 1].end
        };
        if covered < to {
            let ghost was = out@;
            out.push(
                StyledRun {
                    start: covered,
                    end: to,
                    style: Style { color: None, italic: false, bold: false },
                },
            );
            proof {
                assert(forall|i: int| 0 <= i < was.len() ==> out@[i] == was[i]);
                assert(covered >= self.len);
                assert(was.len() > 0 ==> covered == self.len) by {
                    if was.len() > 0 {
                        assert(was[was.len() - 1].start < covered);
                        lemma_tile_starts(was, from as int, covered as int, was.len() - 1);
                    }
                }
                assert forall|i: int, p: nat|
                    0 <= i < out@.len() && (#[trigger] out@[i]).start <= p < out@[i].end implies out@[i].style
                    == #[trigger] style_at(text, lines, p) by {
                    if i < was.len() {
                        assert(was[i].style == style_at(text, lines, p));
                    }
                }
            }
        }
        out
    }
}

/// A parse that an edit has overtaken is dropped.
pub proof fn law_an_edit_overtakes_a_parse(
    e: Editing,
    edit: Option<InputEdit>,
    text: Seq<char>,
    lines: Seq<Seq<Span>>,
)
    ensures
        e.then_update(edit, text).then_parsed(e.generation, lines) == e.then_update(edit, text),
{
}

} // verus!
