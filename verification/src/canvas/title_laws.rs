//! What titles promise: a card is called by what its human would call it.
use vstd::prelude::*;

use crate::canvas::doc::{ClientKind, Item, ItemKind};
use crate::canvas::titles::{
    at_most, banner_of, bare, cut_line, device, done_count, file_title_of, first_bare, first_said,
    is_lead_mark, kind_of, note_title_of, progress_of, task_count, titled, took, unmarked,
    unslashed, Ended, NOTE_SUMMARY_CHARS,
};
use crate::canvas::shells::shell_in;
use crate::canvas::view::Canvas;
use crate::double::{half_even, lemma_seconds_error, seconds_units, unit};
use crate::markdown::{segments_of, Piece};
use crate::text::{
    after_last, decimal, decimal_tenths, decimal_two, is_white, last_at, lead, lemma_lead_is,
    lemma_trail_is, lines, starts_with, trim, trim_end, trim_start,
};
use crate::text_laws::{bared, blank, law_trimming_leaves_no_blank_edge, law_trimming_one_end};

verus! {

/// A name in a path: something, without a slash.
pub open spec fn is_name(s: Seq<char>) -> bool {
    s.len() > 0 && !s.contains('/')
}

/// Slashes and nothing else.
pub open spec fn slashes(s: Seq<char>) -> bool {
    forall|i: int| 0 <= i < s.len() ==> #[trigger] s[i] == '/'
}

proof fn lemma_unslashed(s: Seq<char>, tail: Seq<char>)
    requires
        s.len() == 0 || s.last() != '/',
        slashes(tail),
    ensures
        unslashed(s + tail) == s,
    decreases tail.len(),
{
    let all = s + tail;
    if tail.len() == 0 {
        assert(all =~= s);
    } else {
        let less = tail.drop_last();
        assert(all.last() == tail[tail.len() - 1]);
        assert(all.drop_last() =~= s + less);
        assert forall|i: int| 0 <= i < less.len() implies #[trigger] less[i] == '/' by {
            assert(tail[i] == '/');
        }
        lemma_unslashed(s, less);
    }
}

proof fn lemma_last(front: Seq<char>, name: Seq<char>)
    requires
        !name.contains('/'),
    ensures
        last_at(front.push('/') + name, '/') == front.len(),
        last_at(name, '/') == -1,
        after_last(front.push('/') + name, '/') == name,
        after_last(name, '/') == name,
    decreases name.len(),
{
    let all = front.push('/') + name;
    if name.len() == 0 {
        assert(all =~= front.push('/'));
        assert(all.last() == '/');
    } else {
        let less = name.drop_last();
        assert(all.last() == name.last());
        assert(name[name.len() - 1] != '/') by {
            if name.last() == '/' {
                assert(name.contains(name[name.len() - 1]));
            }
        }
        assert(all.drop_last() =~= front.push('/') + less);
        assert(!less.contains('/')) by {
            if less.contains('/') {
                let i = choose|i: int| 0 <= i < less.len() && less[i] == '/';
                assert(name[i] == '/');
            }
        }
        lemma_last(front, less);
    }
    assert(after_last(all, '/') =~= name);
    assert(after_last(name, '/') =~= name);
}

/// A file card is called by the file's name and the directory it is in, whatever stands above that
/// and however many slashes end the path; by the name alone where it is in none.
pub proof fn law_a_file_is_called_by_its_name_and_directory(
    above: Seq<char>,
    dir: Seq<char>,
    name: Seq<char>,
    tail: Seq<char>,
)
    requires
        is_name(name),
        is_name(dir),
        slashes(tail),
    ensures
        file_title_of(name + tail) == name,
        file_title_of(seq!['/'] + name + tail) == name,
        file_title_of(dir.push('/') + name + tail) == name + " · "@ + dir,
        file_title_of(above.push('/') + dir.push('/') + name + tail) == name + " · "@ + dir,
{
    assert(name.last() != '/') by {
        if name.last() == '/' {
            assert(name.contains(name[name.len() - 1]));
        }
    }
    lemma_unslashed(name, tail);
    lemma_last(Seq::empty(), name);

    let one = seq!['/'] + name;
    assert(one =~= Seq::<char>::empty().push('/') + name);
    lemma_unslashed(one, tail);
    assert(one.take(0) =~= Seq::<char>::empty());
    assert(after_last(one.take(0), '/') =~= Seq::<char>::empty());

    let two = dir.push('/') + name;
    lemma_unslashed(two, tail);
    lemma_last(dir, name);
    assert(two.take(dir.len() as int) =~= dir);
    lemma_last(Seq::empty(), dir);

    let three = above.push('/') + dir.push('/') + name;
    let front = above.push('/') + dir;
    assert(three =~= front.push('/') + name);
    lemma_unslashed(three, tail);
    lemma_last(front, name);
    assert(three.take(front.len() as int) =~= front);
    lemma_last(above, dir);
}

/// The marks that lead a heading, a list item or a quote, and the blanks between them.
pub open spec fn marks(s: Seq<char>) -> bool {
    forall|i: int|
        0 <= i < s.len() ==> {
            let c = #[trigger] s[i];
            c == '#' || c == '-' || c == '*' || c == '+' || c == '>' || c == ' '
        }
}

/// `words` says something: it starts with a character that shows and leads nothing, and ends with one
/// that shows.
pub open spec fn says_something(words: Seq<char>) -> bool {
    &&& words.len() > 0
    &&& !is_white(words[0]) && !is_white(words.last())
    &&& !is_lead_mark(words[0])
    &&& words[0] != '['
}

proof fn lemma_unmarked(front: Seq<char>, s: Seq<char>)
    requires
        marks(front),
        s.len() == 0 || !is_lead_mark(s[0]),
    ensures
        unmarked(front + s) == s,
    decreases front.len(),
{
    let all = front + s;
    if front.len() == 0 {
        assert(all =~= s);
    } else {
        let rest = front.drop_first();
        assert(all[0] == front[0]);
        assert(all.drop_first() =~= rest + s);
        assert forall|i: int| 0 <= i < rest.len() implies {
            let c = #[trigger] rest[i];
            c == '#' || c == '-' || c == '*' || c == '+' || c == '>' || c == ' '
        } by {
            assert(rest[i] == front[i + 1]);
        }
        lemma_unmarked(rest, s);
    }
}

/// A text that starts and ends with something that shows is trimmed already, and so are the blanks
/// around it.
proof fn lemma_trimmed(front: Seq<char>, s: Seq<char>, tail: Seq<char>)
    requires
        blank(front),
        blank(tail),
        s.len() > 0,
        !is_white(s[0]),
        !is_white(s.last()),
    ensures
        trim(front + s + tail) == s,
{
    let all = front + s + tail;
    assert forall|i: int| 0 <= i < front.len() implies is_white(#[trigger] all[i]) by {
        assert(all[i] == front[i]);
    }
    assert(all[front.len() as int] == s[0]);
    lemma_lead_is(all, front.len());
    let rest = trim_start(all);
    assert(rest =~= s + tail);
    assert forall|i: int| rest.len() - tail.len() <= i < rest.len() implies is_white(
        #[trigger] rest[i],
    ) by {
        assert(rest[i] == tail[i - s.len()]);
    }
    assert(rest[s.len() - 1] == s.last());
    lemma_trail_is(rest, tail.len());
    assert(trim(all) =~= s);
}

/// What a line of a note says is left when its marks and its box are taken off: a heading, a list
/// item, a quote or a task is called by its words.
pub proof fn law_a_line_is_called_by_its_words(
    indent: Seq<char>,
    front: Seq<char>,
    ticked: Seq<char>,
    words: Seq<char>,
    tail: Seq<char>,
)
    requires
        blank(indent),
        marks(front),
        front.len() > 0 ==> !is_white(front[0]),
        ticked.len() == 0 || ticked == "[ ] "@ || ticked == "[x] "@ || ticked == "[X] "@,
        says_something(words),
        blank(tail),
    ensures
        bare(indent + front + ticked + words + tail) == words,
{
    let e = Seq::<char>::empty();
    reveal_strlit("[ ] ");
    reveal_strlit("[x] ");
    reveal_strlit("[X] ");
    let line = indent + front + ticked + words + tail;
    let inner = front + ticked + words;
    assert(inner.last() == words.last());
    assert(inner.len() > 0 && !is_white(inner[0])) by {
        if front.len() > 0 {
            assert(inner[0] == front[0]);
        } else if ticked.len() > 0 {
            assert(inner[0] == '[');
        } else {
            assert(inner[0] == words[0]);
        }
    }
    assert(line =~= indent + inner + tail);
    lemma_trimmed(indent, inner, tail);
    let boxed = ticked + words;
    assert(inner =~= front + boxed);
    assert(boxed[0] == if ticked.len() > 0 {
        '['
    } else {
        words[0]
    });
    lemma_unmarked(front, boxed);
    assert(boxed.last() == words.last());
    assert(e + boxed + e =~= boxed);
    lemma_trimmed(e, boxed, e);
    if ticked.len() > 0 {
        assert(boxed.take(4) =~= ticked);
        assert(boxed.skip(4) =~= words);
    } else {
        assert(boxed =~= words);
        assert(!starts_with(words, "[ ] "@) && !starts_with(words, "[x] "@) && !starts_with(
            words,
            "[X] "@,
        )) by {
            if words.len() >= 4 {
                assert(words.take(4)[0] == words[0]);
            }
        }
    }
    assert(e + words + e =~= words);
    lemma_trimmed(e, words, e);
}

proof fn lemma_first_bare(all: Seq<Seq<char>>) -> (n: int)
    ensures
        0 <= n <= all.len(),
        forall|i: int| 0 <= i < n ==> bare(#[trigger] all[i]).len() == 0,
        n < all.len() ==> first_bare(all) == Some(bare(all[n])) && bare(all[n]).len() > 0,
        n == all.len() ==> first_bare(all) is None,
    decreases all.len(),
{
    if all.len() == 0 || bare(all[0]).len() > 0 {
        0
    } else {
        let rest = all.drop_first();
        let n = lemma_first_bare(rest);
        assert forall|i: int| 0 <= i < n + 1 implies bare(#[trigger] all[i]).len() == 0 by {
            if i > 0 {
                assert(rest[i - 1] == all[i]);
            }
        }
        n + 1
    }
}

/// The title is made of the line: all of it up to forty characters, else the first forty without the
/// blanks they end with, and an ellipsis.
pub open spec fn cut_from(title: Seq<char>, line: Seq<char>) -> bool {
    if line.len() <= 40 {
        title == line
    } else {
        exists|n: int|
            0 <= n <= 40 && #[trigger] line.take(n) + "…"@ == title && blank(line.subrange(n, 40))
                && (n > 0 ==> !is_white(line[n - 1]))
    }
}

/// The title is what the first of the lines that says something says, and "note" where none does.
pub open spec fn called_by(title: Seq<char>, all: Seq<Seq<char>>) -> bool {
    ||| exists|n: int|
        #![trigger all[n]]
        0 <= n < all.len() && bare(all[n]).len() > 0 && cut_from(title, bare(all[n]))
            && forall|i: int| 0 <= i < n ==> bare(#[trigger] all[i]).len() == 0
    ||| title == "note"@ && forall|i: int| 0 <= i < all.len() ==> bare(#[trigger] all[i]).len() == 0
}

/// A note is called by the first of its lines that says something, and "note" where none does. Where
/// it has tasks, how many of them are ticked stands behind.
pub proof fn law_a_note_is_called_by_its_first_words(text: Seq<char>)
    ensures
        exists|title: Seq<char>| #[trigger]
            called_by(title, lines(text)) && ({
                let tasks = segments_of(text).filter(|p: Piece| p is Task);
                let ticked = tasks.filter(|p: Piece| p->done);
                note_title_of(text) == (if tasks.len() > 0 {
                    title + " · "@ + decimal(ticked.len()) + "/"@ + decimal(tasks.len())
                } else {
                    title
                })
            }),
{
    let all = lines(text);
    let pieces = segments_of(text);
    lemma_counted(pieces);
    let n = lemma_first_bare(all);
    let title = match first_bare(all) {
        Some(line) => cut_line(line),
        None => "note"@,
    };
    if n < all.len() {
        let line = bare(all[n]);
        if line.len() > 40 {
            let cut = line.take(40);
            law_trimming_one_end(cut);
            let m = trim_end(cut).len() as int;
            assert(line.take(m) =~= trim_end(cut));
            assert(line.subrange(m, 40) =~= cut.skip(m));
            if m > 0 {
                assert(trim_end(cut).last() == line[m - 1]);
            }
            assert(line.take(m) + "…"@ == title);
        }
        assert(cut_from(title, bare(all[n])));
    }
    assert(called_by(title, all));
}

/// The counts are those of the tasks.
proof fn lemma_counted(pieces: Seq<Piece>)
    ensures
        task_count(pieces) == pieces.filter(|p: Piece| p is Task).len(),
        done_count(pieces) == pieces.filter(|p: Piece| p is Task).filter(
            |p: Piece| p->done,
        ).len(),
    decreases pieces.len(),
{
    reveal(Seq::filter);
    let f = |p: Piece| p is Task;
    let g = |p: Piece| p->done;
    if pieces.len() > 0 {
        let init = pieces.drop_last();
        let last = pieces.last();
        lemma_counted(init);
        if last is Task {
            let was = init.filter(f);
            assert(pieces.filter(f) == was.push(last));
            assert(was.push(last).drop_last() =~= was);
        }
    }
}

/// A note's progress is how many of its tasks are ticked, of how many; a note without tasks has none.
pub proof fn law_progress_counts_the_tasks(text: Seq<char>)
    ensures
        ({
            let tasks = segments_of(text).filter(|p: Piece| p is Task);
            let ticked = tasks.filter(|p: Piece| p->done);
            progress_of(text) == (if tasks.len() > 0 {
                Some((ticked.len(), tasks.len()))
            } else {
                None
            })
        }),
{
    lemma_counted(segments_of(text));
}

/// A zoomed-out note shows the first of its lines that is not blank, without the blanks around it and
/// up to forty-eight characters; an empty one says so.
pub proof fn law_a_notes_summary_is_its_first_line(text: Seq<char>)
    ensures
        ({
            let shown = at_most(first_said(lines(text)), NOTE_SUMMARY_CHARS as int);
            ||| exists|n: int|
                #![trigger lines(text)[n]]
                0 <= n < lines(text).len() && !blank(lines(text)[n]) && (forall|i: int|
                    0 <= i < n ==> blank(#[trigger] lines(text)[i])) && shown == trim(
                    lines(text)[n],
                ).take(
                    if trim(lines(text)[n]).len() < 48 {
                        trim(lines(text)[n]).len() as int
                    } else {
                        48
                    },
                )
            ||| shown == "empty note"@ && forall|i: int|
                0 <= i < lines(text).len() ==> blank(#[trigger] lines(text)[i])
        }),
{
    let all = lines(text);
    reveal_strlit("empty note");
    let n = lemma_first_said(all);
    if n < all.len() {
        let said = trim(all[n]);
        assert(said.take(said.len() as int) =~= said);
        assert(!blank(all[n]));
    }
}

proof fn lemma_first_said(all: Seq<Seq<char>>) -> (n: int)
    ensures
        0 <= n <= all.len(),
        forall|i: int| 0 <= i < n ==> blank(#[trigger] all[i]),
        n < all.len() ==> !blank(all[n]) && first_said(all) == trim(all[n]),
        n == all.len() ==> first_said(all) == "empty note"@,
    decreases all.len(),
{
    if all.len() == 0 {
        0
    } else {
        law_trimming_leaves_no_blank_edge(all[0]);
        if trim(all[0]).len() > 0 {
            0
        } else {
            let rest = all.drop_first();
            let n = lemma_first_said(rest);
            assert forall|i: int| 0 <= i < n + 1 implies blank(#[trigger] all[i]) by {
                if i > 0 {
                    assert(rest[i - 1] == all[i]);
                }
            }
            n + 1
        }
    }
}

/// A banner is led by the name of its card, where the human gave it one; a program's says who it is
/// from where it says nothing itself, and neither its title nor its body has blanks around it.
pub proof fn law_a_banner_is_led_by_its_card(
    name: Seq<char>,
    title: Seq<char>,
    body: Seq<char>,
)
    ensures
        titled(Some(name), title) == name + " · "@ + title,
        titled(None, title) == title,
        ({
            let (said, text) = banner_of(None, title, body);
            &&& bared(body, text)
            &&& blank(title) ==> said == "Terminal"@
            &&& !blank(title) ==> bared(title, said)
            &&& banner_of(Some(name), title, body) == (name + " · "@ + said, text)
        }),
{
    law_trimming_leaves_no_blank_edge(title);
    law_trimming_leaves_no_blank_edge(body);
}

/// How long a command took: under a minute the nearest tenth of a second, from there on the whole
/// minutes and the seconds left over, two digits of them.
pub proof fn law_how_long_it_took(nanos: nat)
    ensures
        nanos < 60_000_000_000 ==> exists|tenths: nat|
            took(nanos) == #[trigger] decimal_tenths(tenths) + " s"@ && -100_000_000 <= 2 * (
            tenths * 100_000_000 - nanos) <= 100_000_000,
        nanos >= 60_000_000_000 ==> ({
            let secs = nanos / 1_000_000_000;
            took(nanos) == decimal(secs / 60) + " m "@ + decimal_two(secs % 60) + " s"@
        }),
{
    if nanos < 60_000_000_000 {
        let secs = nanos / 1_000_000_000;
        let rest = nanos % 1_000_000_000;
        let v = seconds_units(secs, rest);
        let t = half_even(v * 10, unit());
        assert(took(nanos) == decimal_tenths(t) + " s"@);
        lemma_tenths(nanos, v, t);
    }
}

proof fn lemma_tenths(nanos: nat, v: nat, t: nat)
    requires
        nanos < 60_000_000_000,
        v == seconds_units(nanos / 1_000_000_000, nanos % 1_000_000_000),
        t == half_even(v * 10, unit()),
    ensures
        -100_000_000 <= 2 * (t * 100_000_000 - nanos) <= 100_000_000,
{
    let u = unit() as int;
    vstd::arithmetic::power2::lemma_pow2_pos(200);
    vstd::arithmetic::power2::lemma2_to64();
    vstd::arithmetic::power2::lemma2_to64_rest();
    crate::double::lemma_half_even_near(v * 10, unit());
    let x = nanos * u;
    let y = 1_000_000_000 * v;
    if nanos == 0 {
        crate::double::lemma_seconds_zero();
        assert(v == 0);
        assert(t == 0) by (nonlinear_arith)
            requires
                2 * (t * u) <= u,
                t >= 0,
                u > 0,
        ;
    } else {
        lemma_seconds_error(nanos / 1_000_000_000, nanos % 1_000_000_000);
        assert(1_000_000_000 * (nanos / 1_000_000_000) + nanos % 1_000_000_000 == nanos);
        // The double errs by less than a thousandth of a nanosecond.
        let m = vstd::arithmetic::power2::pow2(53) as int;
        assert(m == 0x20_0000_0000_0000);
        let e = y - x;
        assert(1000 * e <= u && -u <= 1000 * e) by (nonlinear_arith)
            requires
                8 * (m * e) <= 13 * x,
                -(13 * x) <= 8 * (m * e),
                x == nanos * u,
                0 <= nanos < 60_000_000_000,
                u > 0,
                m == 0x20_0000_0000_0000,
        ;
        // The tenths err by half of one at most.
        let d = t * u - 10 * v;
        assert(-u <= 2 * d <= u);
        let k = 1_000_000_000 * t - 10 * nanos;
        assert(k * u == 1_000_000_000 * d + 10 * e) by (nonlinear_arith)
            requires
                k == 1_000_000_000 * t - 10 * nanos,
                d == t * u - 10 * v,
                e == y - x,
                y == 1_000_000_000 * v,
                x == nanos * u,
        ;
        assert(-500_000_000 <= k <= 500_000_000) by (nonlinear_arith)
            requires
                k * u == 1_000_000_000 * d + 10 * e,
                -u <= 2 * d <= u,
                1000 * e <= u,
                -u <= 1000 * e,
                u > 0,
        ;
    }
}

/// A finished command's badge says how it went: done, or failed with its status, and how long it
/// took.
pub proof fn law_a_finished_command_says_how_it_went(done: Ended)
    ensures
        done.exit is None || done.exit == Some(0u8) ==> done.says() == "done "@ + took(done.elapsed),
        done.exit matches Some(code) ==> (code != 0 ==> done.says() == "failed ("@ + decimal(
            code as nat,
        ) + ") "@ + took(done.elapsed)),
{
}

/// What a card is called, where the human gave it no name: a terminal by its program's title, else by
/// its session's; a window by its own title; a window or a display without one by its number.
pub proof fn law_an_unnamed_card_is_called_by_what_it_shows(canvas: Canvas, item: Item<Seq<char>>)
    requires
        item.name is None,
    ensures
        ({
            let title = canvas.card_title(item);
            match item.kind {
                ItemKind::Terminal { session } => {
                    let shell = shell_in(canvas.shells.terminals, session);
                    let own = shell is Some && shell->0.title is Some;
                    let alive = canvas.shells.sessions.contains_key(session);
                    &&& own && shell->0.title->0.len() > 0 ==> title == shell->0.title->0
                    &&& own && shell->0.title->0.len() == 0 ==> title == "shell"@
                    &&& !own && alive && canvas.shells.sessions[session].title.len() > 0 ==> title
                        == canvas.shells.sessions[session].title
                    &&& !own && (!alive || canvas.shells.sessions[session].title.len() == 0)
                        ==> title == "shell"@
                    &&& title.len() > 0
                },
                ItemKind::Window { window } => {
                    &&& canvas.screens.titles.contains_key(item.id) ==> title
                        == canvas.screens.titles[item.id]
                    &&& !canvas.screens.titles.contains_key(item.id) ==> title == "window "@
                        + decimal(window as nat)
                },
                ItemKind::Display { display } => title == "display "@ + decimal(display as nat),
                ItemKind::Note { text } => title == note_title_of(text),
                ItemKind::File { path } => title == file_title_of(path),
            }
        }),
{
    reveal_strlit("shell");
}

/// Each kind of card has its word, and each kind of client its device.
pub proof fn law_each_kind_has_its_word(item: Item<Seq<char>>, kind: ClientKind)
    ensures
        item.kind is Terminal ==> kind_of(item) == "terminal"@,
        item.kind is Window ==> kind_of(item) == "window"@,
        item.kind is Display ==> kind_of(item) == "display"@,
        item.kind is Note ==> kind_of(item) == "note"@,
        item.kind is File ==> kind_of(item) == "file"@,
        kind is Mac ==> device(kind) == "Mac"@,
        kind is IPad ==> device(kind) == "iPad"@,
        kind is IPhone ==> device(kind) == "iPhone"@,
        kind is Tool ==> device(kind) == "tool"@,
{
}

} // verus!
