//! What highlighting promises: which grammar reads a text, and how each of its bytes is drawn.
use vstd::prelude::*;

use crate::highlight::editor::{on_row, spliced, style_at, style_in_line, Editing, InputEdit};
use crate::highlight::{
    all_drawn, alike, by_extension, by_first_line, by_name, covered, cut_at, drawn, fed, for_file,
    for_tag, is_for, law_runs_cover_and_differ, merged, plain_run, plain_span, ranges_of_line,
    run_bytes, runs_of, same_but_case, seen, span_of, spans_of_line, told_before, total, Bundle,
    Coloured, Grammar, Span, TextRun, Token, Told,
};
use crate::text::{
    after_last, bytes, last_at, lemma_starts_end, lemma_starts_grow, pieces, start_of, trim,
};
use crate::theme::Swatch;

verus! {

/// Each token has its colour: the code's those of the terminal's palette, the rest the greys, and
/// what could not be read the colour of an error.
pub proof fn law_a_token_has_its_colour(token: Token)
    ensures
        token.swatch() == match token {
            Token::Plain => Swatch::Text,
            Token::Comment => Swatch::TextMuted,
            Token::Punctuation => Swatch::TextSecondary,
            Token::Invalid => Swatch::Error,
            Token::String => Swatch::Ansi(2),
            Token::Constant => Swatch::Ansi(3),
            Token::Function => Swatch::Ansi(4),
            Token::Keyword => Swatch::Ansi(5),
            Token::Type => Swatch::Ansi(6),
        },
{
}

/// The last of the grammars that this holds of.
pub open spec fn last_such(all: Seq<Grammar>, i: int, pick: spec_fn(Grammar) -> bool) -> bool {
    &&& 0 <= i < all.len() && pick(all[i])
    &&& forall|j: int| i < j < all.len() ==> !pick(#[trigger] all[j])
}

proof fn lemma_by_extension(all: Seq<Grammar>, ext: Seq<char>, i: int)
    requires
        last_such(all, i, |g: Grammar| is_for(g, ext)),
    ensures
        by_extension(all, ext) == Some(all[i].name),
    decreases all.len(),
{
    let pick = |g: Grammar| is_for(g, ext);
    if i < all.len() - 1 {
        assert(!pick(all[all.len() - 1]));
        let init = all.drop_last();
        assert forall|j: int| i < j < init.len() implies !pick(#[trigger] init[j]) by {
            assert(!pick(all[j]));
        }
        assert(pick(init[i]));
        lemma_by_extension(init, ext, i);
    } else {
        assert(pick(all[i]));
    }
}

proof fn lemma_no_extension(all: Seq<Grammar>, ext: Seq<char>)
    requires
        forall|j: int| 0 <= j < all.len() ==> !is_for(#[trigger] all[j], ext),
    ensures
        by_extension(all, ext) is None,
    decreases all.len(),
{
    if all.len() > 0 {
        assert(!is_for(all[all.len() - 1], ext));
        let init = all.drop_last();
        assert forall|j: int| 0 <= j < init.len() implies !is_for(#[trigger] init[j], ext) by {
            assert(!is_for(all[j], ext));
        }
        lemma_no_extension(init, ext);
    }
}

proof fn lemma_by_name(all: Seq<Grammar>, name: Seq<char>, i: int)
    requires
        last_such(all, i, |g: Grammar| same_but_case(g.name, name)),
    ensures
        by_name(all, name) == Some(all[i].name),
    decreases all.len(),
{
    let pick = |g: Grammar| same_but_case(g.name, name);
    if i < all.len() - 1 {
        assert(!pick(all[all.len() - 1]));
        let init = all.drop_last();
        assert forall|j: int| i < j < init.len() implies !pick(#[trigger] init[j]) by {
            assert(!pick(all[j]));
        }
        assert(pick(init[i]));
        lemma_by_name(init, name, i);
    } else {
        assert(pick(all[i]));
    }
}

/// A file whose name has an extension is read with the last grammar that is for it; where none is,
/// or there is no extension, with one for the whole name; else with one its first line asks for.
/// Plain text is read with none.
pub proof fn law_a_file_is_read_by_its_extension(
    all: Bundle,
    path: Seq<char>,
    first_line: Seq<char>,
    i: int,
)
    ensures
        ({
            let name = after_last(path, '/');
            let ext = after_last(name, '.');
            let dotted = last_at(name, '.') >= 0;
            let by_ext = |g: Grammar| is_for(g, ext);
            let by_whole = |g: Grammar| is_for(g, name);
            let none_for_ext = !dotted || forall|j: int|
                0 <= j < all.grammars.len() ==> !is_for(#[trigger] all.grammars[j], ext);
            let none_for_name = forall|j: int|
                0 <= j < all.grammars.len() ==> !is_for(#[trigger] all.grammars[j], name);
            &&& dotted && last_such(all.grammars, i, by_ext) ==> for_file(all, path, first_line)
                == coloured(all.grammars[i].name)
            &&& none_for_ext && last_such(all.grammars, i, by_whole) ==> for_file(
                all,
                path,
                first_line,
            ) == coloured(all.grammars[i].name)
            &&& none_for_ext && none_for_name ==> for_file(all, path, first_line) == (match by_first_line(
                all.grammars,
                first_line,
            ) {
                Some(found) => coloured(found),
                None => None,
            })
        }),
{
    let name = after_last(path, '/');
    let ext = after_last(name, '.');
    let dotted = last_at(name, '.') >= 0;
    if dotted && last_such(all.grammars, i, |g: Grammar| is_for(g, ext)) {
        lemma_by_extension(all.grammars, ext, i);
    }
    if last_such(all.grammars, i, |g: Grammar| is_for(g, name)) {
        lemma_by_extension(all.grammars, name, i);
    }
    if forall|j: int| 0 <= j < all.grammars.len() ==> !is_for(#[trigger] all.grammars[j], ext) {
        lemma_no_extension(all.grammars, ext);
    }
    if forall|j: int| 0 <= j < all.grammars.len() ==> !is_for(#[trigger] all.grammars[j], name) {
        lemma_no_extension(all.grammars, name);
    }
}

/// The grammar's name, but plain text's is none.
pub open spec fn coloured(name: Seq<char>) -> Option<Seq<char>> {
    if name == "Plain Text"@ {
        None
    } else {
        Some(name)
    }
}

/// A fence's tag, without the white space around it, means a grammar for files with that extension,
/// else one of that name; an empty tag means none.
pub proof fn law_a_tag_is_an_extension_or_a_name(all: Bundle, lang: Seq<char>, i: int)
    ensures
        trim(lang).len() == 0 ==> for_tag(all, lang) is None,
        trim(lang).len() > 0 ==> {
            let tag = trim(lang);
            let none = forall|j: int|
                0 <= j < all.grammars.len() ==> !is_for(#[trigger] all.grammars[j], tag);
            &&& last_such(all.grammars, i, |g: Grammar| is_for(g, tag)) ==> for_tag(all, lang)
                == coloured(all.grammars[i].name)
            &&& none && last_such(
                all.grammars,
                i,
                |g: Grammar| same_but_case(g.name, tag),
            ) ==> for_tag(all, lang) == coloured(all.grammars[i].name)
        },
{
    let tag = trim(lang);
    if last_such(all.grammars, i, |g: Grammar| is_for(g, tag)) {
        lemma_by_extension(all.grammars, tag, i);
    }
    if forall|j: int| 0 <= j < all.grammars.len() ==> !is_for(#[trigger] all.grammars[j], tag) {
        lemma_no_extension(all.grammars, tag);
    }
    if last_such(all.grammars, i, |g: Grammar| same_but_case(g.name, tag)) {
        lemma_by_name(all.grammars, tag, i);
    }
}

/// The span at the place `i` holds the byte `at`.
pub open spec fn holds_byte(spans: Seq<Span>, i: int, at: nat) -> bool {
    &&& 0 <= i < spans.len()
    &&& covered(spans.take(i)) <= at < covered(spans.take(i)) + spans[i].len
}

/// The run at the place `i` holds the byte `at`.
pub open spec fn run_holds(runs: Seq<TextRun>, i: int, at: nat) -> bool {
    &&& 0 <= i < runs.len()
    &&& run_bytes(runs.take(i)) <= at < run_bytes(runs.take(i)) + runs[i].len
}

/// Every byte of a line looks as the piece it came in does: its token by the piece's colour, italic
/// and bold by its faces. Putting neighbours together changes no byte.
pub proof fn law_a_byte_looks_as_its_piece_does(pieces: Seq<Coloured>, n: nat, i: int, at: nat) -> (
j: int)
    requires
        n <= usize::MAX,
        0 <= i < pieces.len(),
        total(pieces.take(i)) <= at < total(pieces.take(i)) + pieces[i].len,
        at < n,
    ensures
        holds_byte(merged(pieces, n), j, at),
        merged(pieces, n)[j].token == Token::of_red(pieces[i].red),
        merged(pieces, n)[j].italic == (pieces[i].faces & 4 != 0),
        merged(pieces, n)[j].bold == (pieces[i].faces & 1 != 0),
    decreases pieces.len(),
{
    let init = pieces.drop_last();
    let before = merged(init, n);
    let now = merged(pieces, n);
    let len = (seen(pieces, n) - seen(init, n)) as nat;
    let span = span_of(pieces.last(), len);
    law_runs_cover_and_differ(init, n);
    lemma_total_take(pieces, i);
    if i < init.len() {
        assert(init.take(i) =~= pieces.take(i));
        let j = law_a_byte_looks_as_its_piece_does(init, n, i, at);
        if len == 0 {
        } else if before.len() > 0 && alike(before.last(), span) {
            assert(now.take(j) =~= before.take(j));
            lemma_last_covers(before);
        } else {
            assert(now.take(j) =~= before.take(j));
        }
        j
    } else {
        assert(pieces.take(i) =~= init);
        let j = now.len() - 1;
        if before.len() > 0 && alike(before.last(), span) {
            assert(now.take(j) =~= before.drop_last());
            lemma_last_covers(before);
        } else {
            assert(now.take(j) =~= before);
        }
        j
    }
}

proof fn lemma_last_covers(spans: Seq<Span>)
    requires
        spans.len() > 0,
    ensures
        covered(spans) == covered(spans.drop_last()) + spans.last().len,
{
}

proof fn lemma_total_take(pieces: Seq<Coloured>, i: int)
    requires
        0 <= i < pieces.len(),
    ensures
        total(pieces.take(i)) + pieces[i].len <= total(pieces),
    decreases pieces.len(),
{
    let init = pieces.drop_last();
    if i < init.len() {
        lemma_total_take(init, i);
        assert(init.take(i) =~= pieces.take(i));
    } else {
        assert(pieces.take(i) =~= init);
    }
}

/// Every byte of a line that a span covers is drawn in its token's colour and with its faces; a byte
/// past the spans, or of a line without any, is drawn as plain text.
pub proof fn law_a_byte_is_drawn_in_its_colour(n: nat, spans: Seq<Span>, i: int, at: nat) -> (k: int)
    requires
        n <= usize::MAX,
        at < n,
        holds_byte(spans, i, at) || at >= covered(spans),
    ensures
        run_holds(runs_of(n, Some(spans)), k, at),
        holds_byte(spans, i, at) ==> {
            let run = runs_of(n, Some(spans))[k];
            &&& run.color == spans[i].token.swatch()
            &&& run.italic == spans[i].italic && run.bold == spans[i].bold
        },
        at >= covered(spans) ==> runs_of(n, Some(spans))[k].color == Swatch::Text && !runs_of(
            n,
            Some(spans),
        )[k].italic && !runs_of(n, Some(spans))[k].bold,
        runs_of(n, None) == seq![plain_run(n)],
        plain_run(n).color == Swatch::Text && !plain_run(n).italic && !plain_run(n).bold,
{
    let runs = runs_of(n, Some(spans));
    lemma_all_drawn(spans);
    if holds_byte(spans, i, at) {
        lemma_covered_take(spans, i);
    }
    if at >= covered(spans) {
        let k = spans.len() as int;
        assert(runs.take(k) =~= all_drawn(spans));
        k
    } else if covered(spans) <= n {
        lemma_all_drawn(spans.take(i));
        assert(runs.take(i) =~= all_drawn(spans.take(i)));
        i
    } else {
        lemma_cut(spans, n, i, at);
        i
    }
}

proof fn lemma_all_drawn(spans: Seq<Span>)
    ensures
        run_bytes(all_drawn(spans)) == covered(spans),
    decreases spans.len(),
{
    if spans.len() > 0 {
        lemma_all_drawn(spans.drop_last());
        assert(all_drawn(spans).drop_last() =~= all_drawn(spans.drop_last()));
    }
}

proof fn lemma_covered_take(spans: Seq<Span>, i: int)
    requires
        0 <= i < spans.len(),
    ensures
        covered(spans.take(i)) + spans[i].len <= covered(spans),
    decreases spans.len(),
{
    let init = spans.drop_last();
    if i < init.len() {
        lemma_covered_take(init, i);
        assert(init.take(i) =~= spans.take(i));
    } else {
        assert(spans.take(i) =~= init);
    }
}

proof fn lemma_cut(spans: Seq<Span>, n: nat, i: int, at: nat)
    requires
        n <= usize::MAX,
        at < n,
        holds_byte(spans, i, at),
    ensures
        i < cut_at(spans, n).len(),
        cut_at(spans, n).take(i) == all_drawn(spans.take(i)),
        run_holds(cut_at(spans, n), i, at),
        cut_at(spans, n)[i].color == spans[i].token.swatch(),
        cut_at(spans, n)[i].italic == spans[i].italic,
        cut_at(spans, n)[i].bold == spans[i].bold,
    decreases spans.len(),
{
    let init = spans.drop_last();
    let cut = cut_at(spans, n);
    lemma_all_drawn(spans.take(i));
    if i < init.len() {
        assert(init.take(i) =~= spans.take(i));
        lemma_cut(init, n, i, at);
        assert(cut.take(i) =~= cut_at(init, n).take(i));
    } else {
        assert(spans.take(i) =~= init);
        lemma_uncut(init, n);
        assert(cut.take(i) =~= all_drawn(init));
    }
}

proof fn lemma_uncut(spans: Seq<Span>, n: nat)
    requires
        covered(spans) < n,
    ensures
        cut_at(spans, n) == all_drawn(spans),
    decreases spans.len(),
{
    if spans.len() > 0 {
        lemma_uncut(spans.drop_last(), n);
        assert(all_drawn(spans) =~= all_drawn(spans.drop_last()).push(
            drawn(spans.last(), spans.last().len as nat),
        ));
    } else {
        assert(all_drawn(spans) =~= cut_at(spans, n));
    }
}

/// A line that is too long, or that the grammar cannot read, is one run of plain text; the empty end
/// of a text has none. Else its runs are what the reader made of it, told of every line before it in
/// turn, each with its line feed.
pub proof fn law_a_line_is_read_after_those_before_it(
    start: Seq<Told>,
    all: Seq<Seq<char>>,
    i: int,
)
    requires
        0 <= i < all.len(),
        forall|k: int| 0 <= k < i ==> bytes(#[trigger] all[k]) <= 4_000,
    ensures
        i == all.len() - 1 && all[i].len() == 0 ==> spans_of_line(start, all, i).len() == 0,
        bytes(all[i]) > 4_000 ==> spans_of_line(start, all, i) == seq![plain_span(bytes(all[i]))],
        told_before(start, all, i) == start + all.take(i).map_values(
            |line: Seq<char>| Told::Line(line.push('\n')),
        ),
        i < all.len() - 1 ==> fed(all, i) == all[i].push('\n'),
        i == all.len() - 1 ==> fed(all, i) == all[i],
    decreases i,
{
    assert(bytes(Seq::<char>::empty()) == 0);
    if i > 0 {
        law_a_line_is_read_after_those_before_it(start, all, i - 1);
        let put = |line: Seq<char>| Told::Line(line.push('\n'));
        assert(all.take(i).map_values(put) =~= all.take(i - 1).map_values(put).push(
            Told::Line(all[i - 1].push('\n')),
        ));
        assert(start + all.take(i - 1).map_values(put).push(Told::Line(all[i - 1].push('\n')))
            =~= (start + all.take(i - 1).map_values(put)).push(
            Told::Line(all[i - 1].push('\n')),
        ));
    } else {
        assert(start + all.take(0).map_values(|line: Seq<char>| Told::Line(line.push('\n')))
            =~= start);
    }
}

/// A span that is not plain is a styled range over its own bytes, in its colour and faces; a plain
/// one is none.
pub proof fn law_a_styled_span_is_a_range(spans: Seq<Span>, from: nat, i: int) -> (k: int)
    requires
        0 <= i < spans.len(),
        from + covered(spans) <= usize::MAX,
        spans[i].token != Token::Plain || spans[i].italic || spans[i].bold,
    ensures
        0 <= k < ranges_of_line(spans, from).len(),
        ({
            let range = ranges_of_line(spans, from)[k];
            &&& range.start == from + covered(spans.take(i))
            &&& range.end == range.start + spans[i].len
            &&& range.color == spans[i].token.swatch()
            &&& range.italic == spans[i].italic && range.bold == spans[i].bold
        }),
        ranges_of_line(spans, from).len() == spans.filter(
            |s: Span| s.token != Token::Plain || s.italic || s.bold,
        ).len(),
    decreases spans.len(),
{
    reveal(Seq::filter);
    let init = spans.drop_last();
    lemma_ranges_counted(spans, from);
    lemma_covered_take(spans, i);
    if i < init.len() {
        assert(init.take(i) =~= spans.take(i));
        law_a_styled_span_is_a_range(init, from, i)
    } else {
        assert(spans.take(i) =~= init);
        ranges_of_line(spans, from).len() - 1
    }
}

proof fn lemma_ranges_counted(spans: Seq<Span>, from: nat)
    ensures
        ranges_of_line(spans, from).len() == spans.filter(
            |s: Span| s.token != Token::Plain || s.italic || s.bold,
        ).len(),
    decreases spans.len(),
{
    reveal(Seq::filter);
    if spans.len() > 0 {
        lemma_ranges_counted(spans.drop_last(), from);
    }
}

/// A byte in the editor is drawn as its span says, in the editor's own style where that is plain.
pub proof fn law_the_editor_draws_a_byte_as_its_span_says(spans: Seq<Span>, i: int, at: nat)
    requires
        holds_byte(spans, i, at),
        forall|k: int| 0 <= k < spans.len() ==> (#[trigger] spans[k]).len > 0,
    ensures
        ({
            let style = style_in_line(spans, at);
            let plain = spans[i].token == Token::Plain && !spans[i].italic && !spans[i].bold;
            &&& plain ==> style.color is None && !style.italic && !style.bold
            &&& !plain ==> style.color == Some(spans[i].token.swatch()) && style.italic
                == spans[i].italic && style.bold == spans[i].bold
        }),
    decreases spans.len(),
{
    assert(spans[0].len > 0);
    let rest = spans.drop_first();
    if i > 0 {
        lemma_covered_front(spans, i);
        assert(rest.take(i - 1) =~= spans.take(i).drop_first());
        assert forall|k: int| 0 <= k < rest.len() implies (#[trigger] rest[k]).len > 0 by {
            assert(spans[k + 1].len > 0);
        }
        law_the_editor_draws_a_byte_as_its_span_says(rest, i - 1, (at - spans[0].len) as nat);
    } else {
        assert(spans.take(0) =~= Seq::<Span>::empty());
    }
}

proof fn lemma_covered_front(spans: Seq<Span>, i: int)
    requires
        0 < i <= spans.len(),
    ensures
        covered(spans.take(i)) == spans[0].len + covered(spans.take(i).drop_first()),
    decreases i,
{
    let some = spans.take(i);
    if i > 1 {
        lemma_covered_front(spans, i - 1);
        assert(some.drop_last() =~= spans.take(i - 1));
        assert(some.drop_first().drop_last() =~= spans.take(i - 1).drop_first());
    } else {
        assert(some.drop_last() =~= Seq::<Span>::empty());
        assert(some.drop_first() =~= Seq::<Span>::empty());
    }
}

/// An edit inside the text takes the rows from its first to its last away and leaves as many plain
/// rows as it put in their place; the rows above and below are those there were.
pub proof fn law_an_edit_replaces_its_rows(lines: Seq<Seq<Span>>, edit: InputEdit)
    requires
        edit.start_position.row <= edit.old_end_position.row < lines.len(),
        edit.start_position.row <= edit.new_end_position.row < usize::MAX,
    ensures
        ({
            let next = spliced(lines, edit);
            let from = edit.start_position.row as int;
            let put = edit.new_end_position.row - from + 1;
            let behind = edit.old_end_position.row + 1;
            &&& next.len() == from + put + (lines.len() - behind)
            &&& next.take(from) == lines.take(from)
            &&& next.skip(from + put) == lines.skip(behind)
            &&& forall|k: int| from <= k < from + put ==> (#[trigger] next[k]).len() == 0
        }),
{
    let next = spliced(lines, edit);
    let from = edit.start_position.row as int;
    let put = edit.new_end_position.row - from + 1;
    assert(next.take(from) =~= lines.take(from));
    assert(next.skip(from + put) =~= lines.skip(edit.old_end_position.row + 1));
}

/// Every edit starts a new generation; a parse of that generation lands, whole.
pub proof fn law_a_parse_of_the_last_edit_lands(
    e: Editing,
    edit: Option<InputEdit>,
    text: Seq<char>,
    lines: Seq<Seq<Span>>,
)
    ensures
        ({
            let next = e.then_update(edit, text);
            &&& next.text == text && next.syntax == e.syntax && next.generation != e.generation
            &&& edit is None ==> next.lines == e.lines
            &&& next.then_parsed(next.generation, lines).lines == lines
            &&& next.then_parsed(next.generation, lines).text == text
        }),
{
}

/// A byte of the editor's text is drawn as the spans of its row say, at its place in the row; at a
/// line feed, in a row without spans and past the end it is plain.
pub proof fn law_a_byte_is_drawn_by_its_row(
    text: Seq<char>,
    lines: Seq<Seq<Span>>,
    row: int,
    column: nat,
)
    requires
        0 <= row < pieces(text, '\n').len(),
        column <= bytes(pieces(text, '\n')[row]),
    ensures
        ({
            let at = (start_of(pieces(text, '\n'), row) + column) as nat;
            let style = style_at(text, lines, at);
            &&& row < lines.len() && column < bytes(pieces(text, '\n')[row]) ==> style
                == style_in_line(lines[row], column)
            &&& row >= lines.len() || column == bytes(pieces(text, '\n')[row]) ==> style.color
                is None && !style.italic && !style.bold
        }),
{
    let parts = pieces(text, '\n');
    let at = (start_of(parts, row) + column) as nat;
    lemma_starts_end(text, '\n');
    if at < bytes(text) {
        assert(on_row(parts, row, at));
        let found = choose|r: int| on_row(parts, r, at);
        if found < row {
            lemma_starts_grow(parts, found, row);
        } else if found > row {
            lemma_starts_grow(parts, row, found);
        }
    } else {
        lemma_starts_grow(parts, row, parts.len() as int);
        if row < parts.len() - 1 {
            lemma_starts_grow(parts, row + 1, parts.len() as int);
            lemma_starts_grow(parts, row, row + 1);
        }
    }
}

} // verus!
