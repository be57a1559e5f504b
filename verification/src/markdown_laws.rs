//! What reading Markdown promises: every line of a text goes to one piece, unchanged.
use vstd::prelude::*;

use crate::markdown::{
    has_text, info_of, is_fence, reading, segments_of, task_of, ticks, Piece, Reading,
};
use crate::text::{is_white, joined, lead, lemma_lead, lemma_lead_is, lines, trim, trim_start};
use crate::text_laws::{bared, blank, law_trimming_leaves_no_blank_edge};

verus! {

/// White space stands in front of the place `n` of `line`, and nothing else.
pub open spec fn indents(line: Seq<char>, n: int) -> bool {
    0 <= n <= line.len() && blank(line.take(n))
}

/// Behind its indentation `line` starts with three backticks.
pub open spec fn fences(line: Seq<char>) -> bool {
    exists|n: int| #[trigger]
        indents(line, n) && n + 3 <= line.len() && line[n] == '`' && line[n + 1] == '`' && line[n
            + 2] == '`'
}

/// The fence `line` names `lang`: what stands behind all its backticks, without the white space
/// around it.
pub open spec fn names(line: Seq<char>, lang: Seq<char>) -> bool {
    exists|n: int, m: int| #[trigger] ticked(line, n, m) && bared(line.skip(m), lang)
}

/// Backticks, three at least, run from behind the indentation of `line` at `n` to `m`, and no
/// further.
pub open spec fn ticked(line: Seq<char>, n: int, m: int) -> bool {
    &&& indents(line, n)
    &&& n + 3 <= m <= line.len()
    &&& forall|i: int| n <= i < m ==> #[trigger] line[i] == '`'
    &&& m < line.len() ==> line[m] != '`'
}

/// `line` is the task `text`: behind its indentation a list mark, a box that is ticked or not, and
/// the text after it.
pub open spec fn tasks(line: Seq<char>, done: bool, text: Seq<char>) -> bool {
    exists|n: int| #[trigger]
        indents(line, n) && n + 6 <= line.len() && (line[n] == '-' || line[n] == '*' || line[n]
            == '+') && line[n + 1] == ' ' && line[n + 2] == '[' && (if done {
            line[n + 3] == 'x' || line[n + 3] == 'X'
        } else {
            line[n + 3] == ' '
        }) && line[n + 4] == ']' && line[n + 5] == ' ' && text == line.skip(n + 6)
}

/// The line is neither a fence nor a task.
pub open spec fn plain(line: Seq<char>) -> bool {
    !fences(line) && forall|done: bool, text: Seq<char>| !#[trigger] tasks(line, done, text)
}

/// The lines, a line feed between each and the next.
pub open spec fn lined(all: Seq<Seq<char>>) -> Seq<char>
    decreases all.len(),
{
    if all.len() == 0 {
        Seq::empty()
    } else if all.len() == 1 {
        all[0]
    } else {
        all[0] + seq!['\n'] + lined(all.drop_first())
    }
}

/// The piece is what the lines from `from` to before `to` say, with the pieces `before` read: prose
/// is a run of plain lines, a block the lines between two fences or between one and the end of the
/// text, a task one line.
pub open spec fn made(
    before: Seq<Piece>,
    piece: Piece,
    all: Seq<Seq<char>>,
    from: int,
    to: int,
) -> bool {
    &&& 0 <= from < to <= all.len()
    &&& match piece {
        Piece::Prose(text) => {
            &&& text == lined(all.subrange(from, to))
            &&& forall|i: int| from <= i < to ==> plain(#[trigger] all[i])
            &&& exists|i: int| from <= i < to && !blank(#[trigger] all[i])
        },
        Piece::Code { lang, body } => {
            let end = if to == all.len() && !(to - 1 > from && fences(all[to - 1])) {
                to
            } else {
                to - 1
            };
            &&& fences(all[from])
            &&& names(all[from], lang)
            &&& from < end
            &&& end < to ==> fences(all[end])
            &&& forall|i: int| from < i < end ==> !fences(#[trigger] all[i])
            &&& body == lined(all.subrange(from + 1, end))
        },
        Piece::Task { ix, done, text } => {
            &&& to == from + 1
            &&& tasks(all[from], done, text)
            &&& ix == before.filter(|p: Piece| p is Task).len()
        },
    }
}

/// Where the piece `k` may start: behind the one before.
pub open spec fn end_before(at: Seq<(int, int)>, k: int) -> int {
    if k == 0 {
        0
    } else {
        at[k - 1].1
    }
}

/// The lines from `from` to before `to` go to no piece: they are blank, and no prose is next to them
/// that they would belong to.
pub open spec fn left_out(before: Seq<Piece>, all: Seq<Seq<char>>, from: int, to: int) -> bool {
    &&& 0 <= from <= to <= all.len()
    &&& forall|i: int| from <= i < to ==> plain(#[trigger] all[i]) && blank(all[i])
    &&& from < to && before.len() > 0 ==> !(before.last() is Prose)
}

/// The pieces stand at the places `at`, one behind the other, nothing but blank lines between them,
/// and no two pieces of prose in a row.
pub open spec fn stand_at(pieces: Seq<Piece>, all: Seq<Seq<char>>, at: Seq<(int, int)>) -> bool {
    &&& at.len() == pieces.len()
    &&& forall|k: int|
        0 <= k < pieces.len() ==> {
            &&& made(pieces.take(k), #[trigger] pieces[k], all, at[k].0, at[k].1)
            &&& left_out(pieces.take(k), all, end_before(at, k), at[k].0)
            &&& pieces[k] is Prose ==> at[k].0 == end_before(at, k)
            &&& pieces[k] is Prose && k > 0 ==> !(pieces[k - 1] is Prose)
        }
}

proof fn lemma_lead_place(line: Seq<char>, n: int)
    requires
        indents(line, n),
        n < line.len(),
        !is_white(line[n]),
    ensures
        lead(line) == n,
{
    assert forall|i: int| 0 <= i < n implies is_white(#[trigger] line[i]) by {
        assert(line.take(n)[i] == line[i]);
    }
    lemma_lead_is(line, n as nat);
}

proof fn lemma_indented(line: Seq<char>)
    ensures
        indents(line, lead(line) as int),
{
    lemma_lead(line);
    let n = lead(line) as int;
    assert forall|i: int| 0 <= i < n implies is_white(#[trigger] line.take(n)[i]) by {
        assert(line[i] == line.take(n)[i]);
    }
}

proof fn lemma_fences(line: Seq<char>)
    ensures
        fences(line) == is_fence(line),
{
    lemma_indented(line);
    assert(!is_white('`'));
    if fences(line) {
        let n = choose|n: int| #[trigger]
            indents(line, n) && n + 3 <= line.len() && line[n] == '`' && line[n + 1] == '`'
                && line[n + 2] == '`';
        lemma_lead_place(line, n);
    }
}

proof fn lemma_tasks(line: Seq<char>, done: bool, text: Seq<char>)
    ensures
        tasks(line, done, text) <==> task_of(line) == Some((done, text)),
{
    lemma_indented(line);
    assert(!is_white('-') && !is_white('*') && !is_white('+'));
    if tasks(line, done, text) {
        let n = choose|n: int| #[trigger]
            indents(line, n) && n + 6 <= line.len() && (line[n] == '-' || line[n] == '*' || line[n]
                == '+') && line[n + 1] == ' ' && line[n + 2] == '[' && (if done {
                line[n + 3] == 'x' || line[n + 3] == 'X'
            } else {
                line[n + 3] == ' '
            }) && line[n + 4] == ']' && line[n + 5] == ' ' && text == line.skip(n + 6);
        lemma_lead_place(line, n);
    }
}

proof fn lemma_plain(line: Seq<char>)
    ensures
        plain(line) == (!is_fence(line) && task_of(line) is None),
{
    lemma_fences(line);
    assert forall|done: bool, text: Seq<char>|
        (#[trigger] tasks(line, done, text)) == (task_of(line) == Some((done, text))) by {
        lemma_tasks(line, done, text);
    }
    if task_of(line) is Some {
        let (done, text) = task_of(line)->0;
        assert(tasks(line, done, text));
    }
}

proof fn lemma_ticks(s: Seq<char>)
    ensures
        ticks(s) <= s.len(),
        forall|i: int| 0 <= i < ticks(s) ==> #[trigger] s[i] == '`',
        ticks(s) < s.len() ==> s[ticks(s) as int] != '`',
    decreases s.len(),
{
    if s.len() > 0 && s[0] == '`' {
        let rest = s.drop_first();
        lemma_ticks(rest);
        assert forall|i: int| 0 <= i < ticks(s) implies #[trigger] s[i] == '`' by {
            if i > 0 {
                assert(rest[i - 1] == s[i]);
            }
        }
        if ticks(s) < s.len() {
            assert(rest[ticks(rest) as int] == s[ticks(s) as int]);
        }
    }
}

proof fn lemma_named(line: Seq<char>)
    requires
        is_fence(line),
    ensures
        names(line, info_of(line)),
{
    lemma_indented(line);
    lemma_lead(line);
    let n = lead(line) as int;
    let bare = trim_start(line);
    lemma_ticks(bare);
    let m = n + ticks(bare);
    assert(bare[0] == line[n] && bare[1] == line[n + 1] && bare[2] == line[n + 2]);
    assert(ticks(bare) >= 3) by {
        if ticks(bare) < 3 {
            assert(bare[ticks(bare) as int] == '`');
        }
    }
    assert forall|i: int| n <= i < m implies #[trigger] line[i] == '`' by {
        assert(bare[i - n] == line[i]);
    }
    if m < line.len() {
        assert(bare[ticks(bare) as int] == line[m]);
    }
    assert(bare.skip(ticks(bare) as int) == line.skip(m));
    law_trimming_leaves_no_blank_edge(line.skip(m));
    assert(ticked(line, n, m));
}

proof fn lemma_lined(all: Seq<Seq<char>>)
    ensures
        lined(all) == joined(all, '\n'),
    decreases all.len(),
{
    if all.len() > 1 {
        let rest = all.drop_first();
        lemma_lined(rest);
        lemma_joined_front(all);
    }
}

proof fn lemma_joined_front(all: Seq<Seq<char>>)
    requires
        all.len() > 1,
    ensures
        joined(all, '\n') == all[0] + seq!['\n'] + joined(all.drop_first(), '\n'),
    decreases all.len(),
{
    let init = all.drop_last();
    let rest = all.drop_first();
    if all.len() == 2 {
        assert(joined(init, '\n') == all[0]);
        assert(joined(rest, '\n') == all[1]);
        assert(joined(all, '\n') =~= all[0] + seq!['\n'] + all[1]);
    } else {
        lemma_joined_front(init);
        assert(init.drop_first() == rest.drop_last());
        assert(joined(all, '\n') =~= all[0] + seq!['\n'] + joined(rest, '\n'));
    }
}

proof fn lemma_stand_push(
    pieces: Seq<Piece>,
    all: Seq<Seq<char>>,
    at: Seq<(int, int)>,
    one: Piece,
    from: int,
    to: int,
)
    requires
        stand_at(pieces, all, at),
        made(pieces, one, all, from, to),
        left_out(pieces, all, end_before(at, pieces.len() as int), from),
        one is Prose ==> from == end_before(at, pieces.len() as int),
        one is Prose && pieces.len() > 0 ==> !(pieces.last() is Prose),
    ensures
        stand_at(pieces.push(one), all, at.push((from, to))),
{
    let next = pieces.push(one);
    let places = at.push((from, to));
    assert forall|k: int| 0 <= k < next.len() implies {
        &&& made(next.take(k), #[trigger] next[k], all, places[k].0, places[k].1)
        &&& left_out(next.take(k), all, end_before(places, k), places[k].0)
        &&& next[k] is Prose ==> places[k].0 == end_before(places, k)
        &&& next[k] is Prose && k > 0 ==> !(next[k - 1] is Prose)
    } by {
        assert(next.take(k) == pieces.take(k)) by {
            assert(next.take(k) =~= pieces.take(k));
        }
        if k < pieces.len() {
            assert(next[k] == pieces[k]);
            assert(end_before(places, k) == end_before(at, k));
        } else {
            assert(pieces.take(k) =~= pieces);
        }
    }
}

proof fn lemma_task_count(pieces: Seq<Piece>, one: Piece)
    ensures
        pieces.push(one).filter(|p: Piece| p is Task).len() == pieces.filter(
            |p: Piece| p is Task,
        ).len() + if one is Task {
            1nat
        } else {
            0nat
        },
{
    reveal(Seq::filter);
    assert(pieces.push(one).drop_last() =~= pieces);
}

/// The open prose, from the end of the last piece to the line `n`, closed.
proof fn lemma_prose_closed(r: Reading, all: Seq<Seq<char>>, at: Seq<(int, int)>, n: int) -> (next:
    Seq<(int, int)>)
    requires
        0 <= n <= all.len(),
        stand_at(r.out, all, at),
        0 <= end_before(at, r.out.len() as int) <= n,
        r.prose == all.subrange(end_before(at, r.out.len() as int), n),
        forall|i: int|
            end_before(at, r.out.len() as int) <= i < n ==> plain(#[trigger] all[i]),
        r.out.len() > 0 ==> !(r.out.last() is Prose),
        r.tasks == r.out.filter(|p: Piece| p is Task).len(),
    ensures
        stand_at(r.with_prose(), all, next),
        left_out(r.with_prose(), all, end_before(next, r.with_prose().len() as int), n),
        r.tasks == r.with_prose().filter(|p: Piece| p is Task).len(),
{
    let from = end_before(at, r.out.len() as int);
    lemma_lined(r.prose);
    assert forall|i: int| 0 <= i < r.prose.len() implies (trim(#[trigger] r.prose[i]).len() == 0)
        == blank(r.prose[i]) by {
        law_trimming_leaves_no_blank_edge(r.prose[i]);
    }
    if has_text(r.prose) {
        let one = Piece::Prose(joined(r.prose, '\n'));
        let k = choose|k: int| 0 <= k < r.prose.len() && trim(#[trigger] r.prose[k]).len() > 0;
        assert(!blank(all[from + k])) by {
            assert(r.prose[k] == all[from + k]);
        }
        assert(made(r.out, one, all, from, n));
        lemma_stand_push(r.out, all, at, one, from, n);
        lemma_task_count(r.out, one);
        at.push((from, n))
    } else {
        assert forall|i: int| from <= i < n implies plain(#[trigger] all[i]) && blank(all[i]) by {
            assert(r.prose[i - from] == all[i]);
        }
        at
    }
}

/// Where the pieces of the first `n` lines stand, and what is open behind them.
proof fn lemma_reading_stands(all: Seq<Seq<char>>, n: int) -> (r: (Seq<(int, int)>, int))
    requires
        0 <= n <= all.len(),
    ensures
        ({
            let now = reading(all.take(n));
            let (at, open) = r;
            let from = end_before(at, now.out.len() as int);
            &&& stand_at(now.out, all, at)
            &&& now.tasks == now.out.filter(|p: Piece| p is Task).len()
            &&& match now.code {
                None => {
                    &&& 0 <= from <= n
                    &&& now.prose == all.subrange(from, n)
                    &&& forall|i: int| from <= i < n ==> plain(#[trigger] all[i])
                    &&& now.out.len() > 0 ==> !(now.out.last() is Prose)
                },
                Some((lang, body)) => {
                    &&& now.prose.len() == 0
                    &&& left_out(now.out, all, from, open)
                    &&& 0 <= open < n
                    &&& fences(all[open])
                    &&& names(all[open], lang)
                    &&& body == all.subrange(open + 1, n)
                    &&& forall|i: int| open < i < n ==> !fences(#[trigger] all[i])
                },
            }
        }),
    decreases n,
{
    reveal(Seq::filter);
    if n == 0 {
        assert(all.take(0) =~= Seq::<Seq<char>>::empty());
        assert(all.subrange(0, 0) =~= Seq::<Seq<char>>::empty());
        (Seq::empty(), 0)
    } else {
        let (at, open) = lemma_reading_stands(all, n - 1);
        let was = reading(all.take(n - 1));
        let line = all[n - 1];
        assert(all.take(n).drop_last() =~= all.take(n - 1));
        assert(all.take(n).last() == line);
        let now = reading(all.take(n));
        assert(now == was.then_line(line));
        lemma_fences(line);
        lemma_plain(line);
        match was.code {
            Some((lang, body)) => {
                if is_fence(line) {
                    let one = Piece::Code { lang, body: joined(body, '\n') };
                    lemma_lined(body);
                    assert(made(was.out, one, all, open, n));
                    lemma_stand_push(was.out, all, at, one, open, n);
                    lemma_task_count(was.out, one);
                    assert(all.subrange(n, n) =~= Seq::<Seq<char>>::empty());
                    assert(now.prose =~= all.subrange(n, n));
                    (at.push((open, n)), 0)
                } else {
                    assert(body.push(line) =~= all.subrange(open + 1, n));
                    (at, open)
                }
            },
            None => {
                if is_fence(line) {
                    let next = lemma_prose_closed(was, all, at, n - 1);
                    lemma_named(line);
                    assert(all.subrange(n, n) =~= Seq::<Seq<char>>::empty());
                    (next, n - 1)
                } else if task_of(line) is Some {
                    let next = lemma_prose_closed(was, all, at, n - 1);
                    let (done, text) = task_of(line)->0;
                    let one = Piece::Task { ix: was.tasks, done, text };
                    lemma_tasks(line, done, text);
                    assert(made(was.with_prose(), one, all, n - 1, n));
                    lemma_stand_push(was.with_prose(), all, next, one, n - 1, n);
                    lemma_task_count(was.with_prose(), one);
                    assert(all.subrange(n, n) =~= Seq::<Seq<char>>::empty());
                    assert(now.prose =~= all.subrange(n, n));
                    (next.push((n - 1, n)), 0)
                } else {
                    let from = end_before(at, was.out.len() as int);
                    assert(was.prose.push(line) =~= all.subrange(from, n));
                    (at, 0)
                }
            },
        }
    }
}

/// Every line of a text goes to one piece, unchanged and in order. A block is the lines between its
/// fence and the next, or the end; a task is its line; all that stands between those is one piece of
/// prose, its lines joined as they are. Only fences, and prose that is blank throughout, are left
/// out.
pub proof fn law_every_line_is_read_once(markdown: Seq<char>)
    ensures
        exists|at: Seq<(int, int)>| #[trigger]
            stand_at(segments_of(markdown), lines(markdown), at) && left_out(
                segments_of(markdown),
                lines(markdown),
                end_before(at, segments_of(markdown).len() as int),
                lines(markdown).len() as int,
            ),
{
    let all = lines(markdown);
    let n = all.len() as int;
    let (at, open) = lemma_reading_stands(all, n);
    assert(all.take(n) =~= all);
    let r = reading(all);
    match r.code {
        Some((lang, body)) => {
            let one = Piece::Code { lang, body: joined(body, '\n') };
            lemma_lined(body);
            assert(made(r.out, one, all, open, n));
            lemma_stand_push(r.out, all, at, one, open, n);
            let next = at.push((open, n));
            assert(segments_of(markdown) == r.out.push(one));
            assert(stand_at(segments_of(markdown), all, next));
        },
        None => {
            let next = lemma_prose_closed(r, all, at, n);
            assert(stand_at(segments_of(markdown), all, next));
        },
    }
}

/// A block's body is the lines between its fences, each character of them as it is: where an opening
/// fence stands on the line `a` and the next fence, or the end of the text, on `b`, one piece is that
/// block.
pub proof fn law_a_block_is_the_lines_between_its_fences(markdown: Seq<char>, a: int, b: int)
    requires
        0 <= a < b <= lines(markdown).len(),
        fences(lines(markdown)[a]),
        b < lines(markdown).len() ==> fences(lines(markdown)[b]),
        forall|i: int| a < i < b ==> !fences(#[trigger] lines(markdown)[i]),
        lines(markdown).take(a).filter(|l: Seq<char>| fences(l)).len() % 2 == 0,
    ensures
        exists|k: int|
            0 <= k < segments_of(markdown).len() && (#[trigger] segments_of(markdown)[k]) is Code
                && segments_of(markdown)[k]->body == lined(lines(markdown).subrange(a + 1, b))
                && names(lines(markdown)[a], segments_of(markdown)[k]->lang),
{
    let all = lines(markdown);
    lemma_open_parity(all, a);
    let before = reading(all.take(a));
    lemma_fences(all[a]);
    lemma_named(all[a]);
    assert(all.take(a + 1).drop_last() =~= all.take(a));
    let lang = info_of(all[a]);
    lemma_block_body(all, a, b);
    let r = reading(all.take(b));
    let out = r.out;
    let one = Piece::Code { lang, body: joined(all.subrange(a + 1, b), '\n') };
    lemma_lined(all.subrange(a + 1, b));
    assert(out =~= before.with_prose());
    if b < all.len() {
        lemma_fences(all[b]);
        assert(all.take(b + 1).drop_last() =~= all.take(b));
        let next = reading(all.take(b + 1));
        assert(next.out == out.push(one));
        lemma_out_stays(all, b + 1, all.len() as int);
        assert(all.take(all.len() as int) =~= all);
        let segments = segments_of(markdown);
        assert(segments.take(next.out.len() as int)[out.len() as int] == one);
        assert(segments[out.len() as int] == one);
    } else {
        assert(all.take(b) =~= all);
        assert(segments_of(markdown)[out.len() as int] == one);
    }
}

proof fn lemma_open_parity(all: Seq<Seq<char>>, n: int)
    requires
        0 <= n <= all.len(),
    ensures
        (reading(all.take(n)).code is None) == (all.take(n).filter(
            |l: Seq<char>| fences(l),
        ).len() % 2 == 0),
    decreases n,
{
    reveal(Seq::filter);
    if n > 0 {
        lemma_open_parity(all, n - 1);
        lemma_fences(all[n - 1]);
        assert(all.take(n).drop_last() =~= all.take(n - 1));
    } else {
        assert(all.take(0) =~= Seq::<Seq<char>>::empty());
    }
}

proof fn lemma_block_body(all: Seq<Seq<char>>, a: int, n: int)
    requires
        0 <= a < n <= all.len(),
        is_fence(all[a]),
        reading(all.take(a)).code is None,
        forall|i: int| a < i < n ==> !fences(#[trigger] all[i]),
    ensures
        reading(all.take(n)).code == Some((info_of(all[a]), all.subrange(a + 1, n))),
        reading(all.take(n)).out == reading(all.take(a)).with_prose(),
    decreases n,
{
    assert(all.take(n).drop_last() =~= all.take(n - 1));
    if n == a + 1 {
        assert(all.subrange(n, n) =~= Seq::<Seq<char>>::empty());
    } else {
        lemma_block_body(all, a, n - 1);
        lemma_fences(all[n - 1]);
        assert(all.subrange(a + 1, n - 1).push(all[n - 1]) =~= all.subrange(a + 1, n));
    }
}

/// A piece that is closed stays as it is.
proof fn lemma_out_stays(all: Seq<Seq<char>>, m: int, n: int)
    requires
        0 <= m <= n <= all.len(),
    ensures
        ({
            let was = reading(all.take(m)).out;
            let now = reading(all.take(n));
            &&& was.len() <= now.out.len()
            &&& now.out.take(was.len() as int) == was
            &&& was.len() <= now.pieces().len()
            &&& now.pieces().take(was.len() as int) == was
        }),
    decreases n,
{
    let was = reading(all.take(m)).out;
    if n > m {
        lemma_out_stays(all, m, n - 1);
        assert(all.take(n).drop_last() =~= all.take(n - 1));
    }
    let now = reading(all.take(n));
    assert(now.out.take(was.len() as int) =~= was);
    assert(now.pieces().take(was.len() as int) =~= was);
}

} // verus!
