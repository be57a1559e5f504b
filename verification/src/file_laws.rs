//! What a file tile promises: where a find lands, what a change points at, and what it says.
use vstd::prelude::*;

use crate::file::{
    all_pointed_at, changed_by, changed_of, clipped, first_from, hits_of, is_hit, landing, laid,
    law_hits_are_the_lines_that_hold_the_needle, mark_of, marks_of, on_disk, places, pointed_at,
    selection, size_text, without_repeats, Asked, DiffOp, Finding, Mark, Read, Stop, Text, Tile,
    Tint, Tone, Written,
};
use crate::text::{
    bytes, decimal, holds, is_upper, lemma_bytes_add, lemma_bytes_ascii, lemma_pieces,
    lemma_starts_end, lemma_starts_grow, lemma_starts_of, lowercase, pieces, stands_at, start_of,
};

verus! {

/// Some character of the needle is a capital.
pub open spec fn shouts(needle: Seq<char>) -> bool {
    exists|i: int| 0 <= i < needle.len() && is_upper(#[trigger] needle[i])
}

/// The needle is a part of the line.
pub open spec fn within(line: Seq<char>, needle: Seq<char>) -> bool {
    exists|front: Seq<char>, back: Seq<char>| #[trigger] (front + needle + back) == line
}

proof fn lemma_within(line: Seq<char>, needle: Seq<char>)
    ensures
        within(line, needle) <==> holds(line, needle),
{
    if within(line, needle) {
        let (front, back) = choose|front: Seq<char>, back: Seq<char>|
            #[trigger] (front + needle + back) == line;
        let at = front.len() as int;
        assert(line.subrange(at, at + needle.len()) =~= needle);
        assert(stands_at(line, needle, at));
    }
    if holds(line, needle) {
        let at = choose|at: int| stands_at(line, needle, at);
        let (front, back) = (line.take(at), line.skip(at + needle.len()));
        assert(front + line.subrange(at, at + needle.len()) + back =~= line);
        assert(front + needle + back == line);
    }
}

/// A line is a hit where the needle is a part of it: as it is typed where it has a capital, and in
/// small letters on both sides where it has none.
pub proof fn law_a_hit_holds_the_needle(line: Seq<char>, needle: Seq<char>)
    ensures
        shouts(needle) ==> (is_hit(line, needle) <==> within(line, needle)),
        !shouts(needle) ==> (is_hit(line, needle) <==> within(lowercase(line), lowercase(needle))),
{
    lemma_within(line, needle);
    lemma_within(lowercase(line), lowercase(needle));
}

/// A changed needle is looked for in every row of the text, and the find lands on the first hit at
/// or behind the caret, on the first of all where none is, and nowhere without a hit.
pub proof fn law_a_find_lands_behind_the_caret(tile: Tile, needle: Seq<char>)
    requires
        tile.search is Some,
        needle.len() > 0,
        pieces(tile.text(), '\n').len() <= usize::MAX,
    ensures
        ({
            let next = tile.then_needle(needle);
            let rows = pieces(tile.text(), '\n');
            &&& next.search matches Some(found)
            &&& found.needle == needle
            &&& forall|i: usize|
                #[trigger] found.hits.contains(i) <==> i < rows.len() && is_hit(
                    rows[i as int],
                    needle,
                )
            &&& found.current is None <==> found.hits.len() == 0
            &&& found.current matches Some(at) ==> {
                &&& at < found.hits.len()
                &&& forall|i: int| 0 <= i < at ==> #[trigger] found.hits[i] < tile.caret
                &&& found.hits[at as int] >= tile.caret || (at == 0 && forall|i: int|
                    0 <= i < found.hits.len() ==> #[trigger] found.hits[i] < tile.caret)
            }
            &&& next.editor == tile.editor && next.dirty == tile.dirty && next.caret == tile.caret
        }),
{
    let rows = pieces(tile.text(), '\n');
    let hits = hits_of(rows, needle);
    law_hits_are_the_lines_that_hold_the_needle(rows, needle);
    lemma_few_hits(rows, needle);
    lemma_landing(hits, tile.caret);
}

proof fn lemma_few_hits(rows: Seq<Seq<char>>, needle: Seq<char>)
    ensures
        hits_of(rows, needle).len() <= rows.len(),
    decreases rows.len(),
{
    if rows.len() > 0 && needle.len() > 0 {
        lemma_few_hits(rows.drop_last(), needle);
    }
}

proof fn lemma_landing(hits: Seq<usize>, from: usize)
    requires
        hits.len() <= usize::MAX,
    ensures
        landing(hits, from) is None <==> hits.len() == 0,
        landing(hits, from) matches Some(at) ==> {
            &&& at < hits.len()
            &&& first_from(hits, from, at as int) || (at == 0 && forall|i: int|
                0 <= i < hits.len() ==> #[trigger] hits[i] < from)
        },
{
    if hits.len() > 0 {
        if exists|i: int| 0 <= i < hits.len() && #[trigger] hits[i] >= from {
            let i = choose|i: int| 0 <= i < hits.len() && #[trigger] hits[i] >= from;
            lemma_a_first(hits, from, i);
        } else {
            assert forall|i: int| 0 <= i < hits.len() implies #[trigger] hits[i] < from by {}
        }
    }
}

proof fn lemma_a_first(hits: Seq<usize>, from: usize, i: int)
    requires
        0 <= i < hits.len(),
        hits[i] >= from,
    ensures
        exists|k: int| first_from(hits, from, k),
    decreases i,
{
    if exists|k: int| 0 <= k < i && #[trigger] hits[k] >= from {
        let k = choose|k: int| 0 <= k < i && #[trigger] hits[k] >= from;
        lemma_a_first(hits, from, k);
    } else {
        assert(first_from(hits, from, i));
    }
}

/// A step forward goes to the hit behind, from the last round to the first; a step back goes the
/// other way. Without a hit there is nowhere to go.
pub proof fn law_a_step_goes_to_the_next_hit(tile: Tile, search: Finding, at: usize)
    requires
        tile.search == Some(search),
        search.current == Some(at),
        at < search.hits.len() <= i64::MAX,
        search.hits.len() <= usize::MAX,
    ensures
        tile.then_step(1).search == Some(
            Finding {
                current: Some(
                    if at + 1 < search.hits.len() {
                        (at + 1) as usize
                    } else {
                        0
                    },
                ),
                ..search
            },
        ),
        tile.then_step(-1i64 as i64).search == Some(
            Finding {
                current: Some(
                    if at > 0 {
                        (at - 1) as usize
                    } else {
                        (search.hits.len() - 1) as usize
                    },
                ),
                ..search
            },
        ),
{
    let n = search.hits.len() as int;
    if at + 1 == n {
        vstd::arithmetic::div_mod::lemma_mod_self_0(n);
    } else {
        vstd::arithmetic::div_mod::lemma_small_mod((at + 1) as nat, n as nat);
    }
    if at == 0 {
        vstd::arithmetic::div_mod::lemma_fundamental_div_mod_converse(-1, n, -1, n - 1);
    } else {
        vstd::arithmetic::div_mod::lemma_small_mod((at - 1) as nat, n as nat);
    }
}

/// The find bar opens empty, and stays as it is where it was open.
pub proof fn law_the_find_bar_opens_empty(tile: Tile)
    ensures
        tile.search is None ==> tile.then_find().search == Some(
            Finding { needle: Seq::empty(), hits: Seq::empty(), current: None },
        ),
        tile.search is Some ==> tile.then_find() == tile,
{
}

/// The step `k` points at the line `i` of a new list of `n`: it lays the line down, or takes lines
/// away just before it; what goes from the end of the list points at the last line.
pub open spec fn points(ops: Seq<DiffOp>, k: int, n: nat, i: int) -> bool {
    &&& 0 <= k < ops.len()
    &&& match ops[k] {
        DiffOp::Equal { .. } => false,
        DiffOp::Insert { new_index, new_len } => new_index <= i < new_index + new_len,
        DiffOp::Replace { new_index, new_len } => new_index <= i < new_index + new_len,
        DiffOp::Delete => 0 <= i < n && (i == laid(ops.take(k)) || (laid(ops.take(k)) >= n && i == n
            - 1)),
    }
}

/// The step lays its lines down inside a list of `n`.
pub open spec fn fits(op: DiffOp, n: nat) -> bool {
    match op {
        DiffOp::Insert { new_index, new_len } => new_index + new_len <= n,
        DiffOp::Replace { new_index, new_len } => new_index + new_len <= n,
        _ => true,
    }
}

/// A reload's changed lines are exactly those that a step of the difference comes to: lines that are
/// new, and the line that stands where others went. Lines that stay are not among them for their own
/// sake.
pub proof fn law_a_changed_line_is_one_a_step_comes_to(ops: Seq<DiffOp>, n: nat, i: usize)
    requires
        n <= usize::MAX,
        forall|k: int| 0 <= k < ops.len() ==> fits(#[trigger] ops[k], n),
    ensures
        changed_by(ops, n).contains(i) <==> exists|k: int| #[trigger] points(ops, k, n, i as int),
        (forall|k: int| 0 <= k < ops.len() ==> (#[trigger] ops[k]) is Equal) ==> changed_by(
            ops,
            n,
        ).len() == 0,
{
    lemma_same_places(all_pointed_at(ops, n), i);
    lemma_pointed(ops, n, i);
    if forall|k: int| 0 <= k < ops.len() ==> (#[trigger] ops[k]) is Equal {
        lemma_nothing_pointed(ops, n);
    }
}

proof fn lemma_nothing_pointed(ops: Seq<DiffOp>, n: nat)
    requires
        forall|k: int| 0 <= k < ops.len() ==> (#[trigger] ops[k]) is Equal,
    ensures
        all_pointed_at(ops, n).len() == 0,
    decreases ops.len(),
{
    if ops.len() > 0 {
        assert(ops[ops.len() - 1] is Equal);
        assert forall|k: int| 0 <= k < ops.drop_last().len() implies (
        #[trigger] ops.drop_last()[k]) is Equal by {
            assert(ops[k] is Equal);
        }
        lemma_nothing_pointed(ops.drop_last(), n);
    }
}

proof fn lemma_same_places(s: Seq<usize>, i: usize)
    ensures
        without_repeats(s).contains(i) <==> s.contains(i),
    decreases s.len(),
{
    if s.len() > 0 {
        let init = s.drop_last();
        lemma_same_places(init, i);
        let before = without_repeats(init);
        let now = without_repeats(s);
        assert(s == init.push(s.last()));
        if s.contains(i) {
            let k = choose|k: int| 0 <= k < s.len() && s[k] == i;
            if k < init.len() {
                assert(init[k] == i);
                let j = choose|j: int| 0 <= j < before.len() && before[j] == i;
                assert(now[j] == i);
            } else {
                assert(now[now.len() - 1] == i);
            }
        }
        if now.contains(i) {
            let k = choose|k: int| 0 <= k < now.len() && now[k] == i;
            if k < before.len() {
                assert(before[k] == i);
                let j = choose|j: int| 0 <= j < init.len() && init[j] == i;
                assert(s[j] == i);
            } else {
                assert(s[s.len() - 1] == i);
            }
        }
    }
}

proof fn lemma_pointed(ops: Seq<DiffOp>, n: nat, i: usize)
    requires
        n <= usize::MAX,
        forall|k: int| 0 <= k < ops.len() ==> fits(#[trigger] ops[k], n),
    ensures
        all_pointed_at(ops, n).contains(i) <==> exists|k: int| #[trigger]
            points(ops, k, n, i as int),
    decreases ops.len(),
{
    if ops.len() > 0 {
        let init = ops.drop_last();
        let last = ops.len() - 1;
        assert forall|k: int| 0 <= k < init.len() implies fits(#[trigger] init[k], n) by {
            assert(fits(ops[k], n));
        }
        lemma_pointed(init, n, i);
        assert(fits(ops[last], n));
        let a = all_pointed_at(init, n);
        let b = pointed_at(ops.last(), laid(init), n);
        let all = a + b;
        assert(ops.take(last) =~= init);
        assert(b.contains(i) <==> points(ops, last, n, i as int)) by {
            lemma_step(ops.last(), laid(init), n, i);
        }
        assert forall|k: int| 0 <= k < last implies #[trigger] points(ops, k, n, i as int)
            == points(init, k, n, i as int) by {
            assert(init.take(k) =~= ops.take(k));
        }
        if all.contains(i) {
            let k = choose|k: int| 0 <= k < all.len() && all[k] == i;
            if k < a.len() {
                assert(a[k] == i);
                let j = choose|j: int| #[trigger] points(init, j, n, i as int);
                assert(points(ops, j, n, i as int));
            } else {
                assert(b[k - a.len()] == i);
                assert(points(ops, last, n, i as int));
            }
        }
        if exists|k: int| #[trigger] points(ops, k, n, i as int) {
            let k = choose|k: int| #[trigger] points(ops, k, n, i as int);
            if k < last {
                assert(points(init, k, n, i as int));
                let j = choose|j: int| 0 <= j < a.len() && a[j] == i;
                assert(all[j] == i);
            } else {
                let j = choose|j: int| 0 <= j < b.len() && b[j] == i;
                assert(all[a.len() + j] == i);
            }
        }
    }
}

proof fn lemma_step(op: DiffOp, at: nat, n: nat, i: usize)
    requires
        n <= usize::MAX,
        fits(op, n),
    ensures
        pointed_at(op, at, n).contains(i) <==> match op {
            DiffOp::Equal { .. } => false,
            DiffOp::Insert { new_index, new_len } => new_index <= i < new_index + new_len,
            DiffOp::Replace { new_index, new_len } => new_index <= i < new_index + new_len,
            DiffOp::Delete => 0 <= i < n && (i == at || (at >= n && i == n - 1)),
        },
{
    match op {
        DiffOp::Equal { .. } => {},
        DiffOp::Insert { new_index, new_len } => {
            lemma_places(new_index, new_len, i);
        },
        DiffOp::Replace { new_index, new_len } => {
            lemma_places(new_index, new_len, i);
        },
        DiffOp::Delete => {
            if n > 0 {
                assert(pointed_at(op, at, n).len() == 1);
                let one = pointed_at(op, at, n)[0];
                assert(one == if at < n {
                    at
                } else {
                    (n - 1) as nat
                });
            }
        },
    }
}

proof fn lemma_places(from: usize, n: usize, i: usize)
    ensures
        from + n <= usize::MAX + 1 ==> (places(from as nat, n as nat).contains(i) <==> from <= i
            < from + n),
{
    let all = places(from as nat, n as nat);
    if from + n <= usize::MAX + 1 {
        if from <= i < from + n {
            assert(all[i - from] == i);
        }
        if all.contains(i) {
            let k = choose|k: int| 0 <= k < all.len() && all[k] == i;
            assert(all[k] == (from + k) as usize);
        }
    }
}

/// The first text of a tile shows the line it was opened at. A later one shows the first line that
/// changed, and stays where the reader was when none did or when the reader dropped an edit for it.
/// Either way the tile holds the text, clean and settled.
pub proof fn law_a_new_text_shows_what_changed(tile: Tile, incoming: Text)
    ensures
        ({
            let next = tile.then_replace(incoming);
            &&& next.text() == incoming.text && next.base == Some(incoming)
            &&& !next.dirty && next.trouble is None && !next.discard
            &&& tile.base is None ==> next.changed.len() == 0 && next.pending_line == tile.focus
            &&& tile.base matches Some(base) ==> {
                &&& !tile.discard ==> next.changed == changed_of(base.text, incoming.text)
                &&& tile.discard ==> next.changed.len() == 0
                &&& next.changed.len() > 0 ==> next.pending_line == Some(next.changed[0])
                &&& next.changed.len() == 0 ==> next.pending_line is None
            }
        }),
{
}

/// A file that is gone or turned binary leaves an edit standing, as a conflict; without an edit the
/// tile lets go of the text. What the worker said last is kept either way.
pub proof fn law_a_file_that_goes_leaves_the_edit(tile: Tile, read: Read)
    requires
        !(read is Text),
    ensures
        ({
            let next = tile.then_read(read);
            &&& next.read == Some(read) && next.text() == tile.text()
            &&& tile.dirty && !tile.discard ==> next.dirty && next.trouble == Some(Stop::Conflict)
                && next.base == tile.base
            &&& !tile.dirty || tile.discard ==> !next.dirty && next.trouble is None && next.base
                is None
        }),
{
}

/// A file is read-only exactly where the worker clipped it, and the reason says at what.
pub proof fn law_only_a_clipped_file_is_read_only(more_lines: u32, size: u64)
    ensures
        clipped(more_lines, size) is None <==> size <= 524_288 && more_lines == 0,
        size > 524_288 ==> clipped(more_lines, size) == Some(
            "Read-only: larger than "@ + size_text(524_288),
        ),
        size <= 524_288 && more_lines > 0 ==> clipped(more_lines, size) == Some(
            "Read-only: longer than "@ + decimal(2_000) + " lines"@,
        ),
{
}

/// What goes to the disk is the text, behind it a newline where the file ended with one.
pub proof fn law_the_last_newline_is_kept(tile: Tile, text: Seq<char>)
    ensures
        on_disk(text, true) == text + seq!['\n'],
        on_disk(text, false) == text,
        tile.then_overwrite().1 matches Some(Asked::Save { text: sent, .. }) ==> sent == on_disk(
            tile.text(),
            tile.base matches Some(base) && base.newline,
        ),
{
    assert(text.push('\n') =~= text + seq!['\n']);
}

/// A save that another change on disk came before is a conflict, one that could not be written says
/// why; the edit stays either way. An answer to no save changes nothing.
pub proof fn law_a_refused_save_keeps_the_edit(tile: Tile, modified_ms: u64, error: Seq<char>)
    ensures
        ({
            let late = tile.then_written(Written::Conflict { modified_ms });
            let failed = tile.then_written(Written::Failed { error });
            &&& tile.saving is Some ==> {
                &&& late.trouble == Some(Stop::Conflict) && failed.trouble == Some(
                    Stop::Failed(error),
                )
                &&& late.saving is None && failed.saving is None
                &&& late.text() == tile.text() && failed.text() == tile.text()
                &&& late.dirty == tile.dirty && failed.dirty == tile.dirty
                &&& late.base == tile.base && failed.base == tile.base
            }
            &&& tile.saving is None ==> late == tile && failed == tile
        }),
{
}

/// The row `k` of a text, what stands before it and what behind: the row holds no newline, `k` of
/// them stand before it, and it starts as many bytes into the text as stand before it.
pub proof fn law_a_row_stands_between_newlines(text: Seq<char>, k: int) -> (sides: (
    Seq<char>,
    Seq<char>,
))
    requires
        0 <= k < pieces(text, '\n').len(),
    ensures
        text == sides.0 + pieces(text, '\n')[k] + sides.1,
        !pieces(text, '\n')[k].contains('\n'),
        sides.0.len() > 0 ==> sides.0.last() == '\n',
        sides.1.len() > 0 ==> sides.1[0] == '\n',
        sides.1.len() == 0 <==> k == pieces(text, '\n').len() - 1,
        sides.0.filter(|c: char| c == '\n').len() == k,
        bytes(sides.0) == start_of(pieces(text, '\n'), k),
    decreases text.len(),
{
    lemma_pieces(text, '\n');
    let parts = pieces(text, '\n');
    reveal(Seq::filter);
    if text.len() == 0 {
        assert(bytes(Seq::<char>::empty()) == 0);
        assert(start_of(parts, 0) == 0);
        (Seq::empty(), Seq::empty())
    } else {
        let init = text.drop_last();
        let before = pieces(init, '\n');
        lemma_pieces(init, '\n');
        let c = text.last();
        assert(text =~= init.push(c));
        if c == '\n' {
            if k < before.len() {
                let (a, b) = law_a_row_stands_between_newlines(init, k);
                lemma_starts_of(parts, before, k);
                assert(a + parts[k] + b.push(c) =~= text);
                (a, b.push(c))
            } else {
                let (a, b) = law_a_row_stands_between_newlines(init, k - 1);
                lemma_starts_of(parts, before, k);
                lemma_starts_end(init, '\n');
                lemma_bytes_add(init, seq![c]);
                lemma_bytes_ascii(c);
                assert(init.push(c) =~= init + seq![c]);
                assert(b.len() == 0);
                assert(init =~= a + before[k - 1]);
                lemma_no_newline(before[k - 1]);
                Seq::filter_distributes_over_add(a, before[k - 1], |c: char| c == '\n');
                assert(text.filter(|c: char| c == '\n') =~= init.filter(
                    |c: char| c == '\n',
                ).push(c));
                assert(text + parts[k] + Seq::<char>::empty() =~= text);
                (text, Seq::empty())
            }
        } else {
            let (a, b) = law_a_row_stands_between_newlines(init, k);
            lemma_starts_of(parts, before, k);
            if k < before.len() - 1 {
                assert(a + parts[k] + b.push(c) =~= text);
                (a, b.push(c))
            } else {
                assert(a + parts[k] + b =~= text);
                (a, b)
            }
        }
    }
}

proof fn lemma_no_newline(s: Seq<char>)
    requires
        !s.contains('\n'),
    ensures
        s.filter(|c: char| c == '\n').len() == 0,
    decreases s.len(),
{
    reveal(Seq::filter);
    if s.len() > 0 {
        let init = s.drop_last();
        assert(s[s.len() - 1] != '\n');
        assert(!init.contains('\n')) by {
            if init.contains('\n') {
                let i = choose|i: int| 0 <= i < init.len() && init[i] == '\n';
                assert(s[i] == '\n');
            }
        }
        lemma_no_newline(init);
    }
}

/// The tint over a row starts where the row does and covers its bytes, and one where it has none.
/// Every row the text has is tinted, in the order they are given, and no other.
pub proof fn law_a_tint_covers_its_row(text: Seq<char>, rows: Seq<usize>, tint: Tint, k: int)
    requires
        0 <= k < pieces(text, '\n').len(),
        bytes(text) < usize::MAX,
    ensures
        ({
            let mark = mark_of(text, k, tint);
            let size = bytes(pieces(text, '\n')[k]);
            &&& mark.tint == tint
            &&& mark.start == start_of(pieces(text, '\n'), k)
            &&& mark.end - mark.start == (if size > 0 {
                size
            } else {
                1
            })
        }),
        marks_of(text, rows, tint) == rows.filter(
            |row: usize| row < pieces(text, '\n').len(),
        ).map_values(|row: usize| mark_of(text, row as int, tint)),
{
    lemma_starts_end(text, '\n');
    lemma_starts_grow(pieces(text, '\n'), k, pieces(text, '\n').len() as int);
    lemma_marks(text, rows, tint);
}

proof fn lemma_marks(text: Seq<char>, rows: Seq<usize>, tint: Tint)
    ensures
        marks_of(text, rows, tint) == rows.filter(
            |row: usize| row < pieces(text, '\n').len(),
        ).map_values(|row: usize| mark_of(text, row as int, tint)),
    decreases rows.len(),
{
    reveal(Seq::filter);
    let pick = |row: usize| row < pieces(text, '\n').len();
    let put = |row: usize| mark_of(text, row as int, tint);
    if rows.len() > 0 {
        lemma_marks(text, rows.drop_last(), tint);
        let init = rows.drop_last().filter(pick);
        assert(init.push(rows.last()).map_values(put) =~= init.map_values(put).push(
            mark_of(text, rows.last() as int, tint),
        ));
    } else {
        assert(rows.filter(pick).map_values(put) =~= Seq::<Mark>::empty());
    }
}

/// What is selected to show a hit starts where the needle does in its row and is as long as the
/// needle; where the row does not hold it nothing is selected, at the row's start.
pub proof fn law_the_needle_is_selected(text: Seq<char>, k: int, needle: Seq<char>, at: nat)
    requires
        0 <= k < pieces(text, '\n').len(),
        bytes(text) <= usize::MAX,
        at + bytes(needle) <= bytes(pieces(text, '\n')[k]),
    ensures
        ({
            let start = start_of(pieces(text, '\n'), k);
            &&& selection(text, k, needle, Some(at)) == (
                (start + at) as nat,
                (start + at + bytes(needle)) as nat,
            )
            &&& selection(text, k, needle, None) == (start, start)
        }),
{
    lemma_starts_end(text, '\n');
    lemma_starts_grow(pieces(text, '\n'), k, pieces(text, '\n').len() as int);
}

/// What the tile says of the file: how many lines it has, what language it is in, whether it is
/// read-only, being saved or edited, what stopped a save, and how many lines the last reload
/// changed.
pub proof fn law_the_summary_tells_how_the_file_stands(tile: Tile)
    ensures
        tile.read is None ==> tile.summary() == "reading…"@,
        tile.read matches Some(Read::Binary { size }) ==> tile.summary() == "binary, "@
            + size_text(size as nat),
        tile.read matches Some(Read::Missing { error }) ==> tile.summary() == "missing: "@ + error,
        tile.read matches Some(Read::Text { .. }) ==> {
            let n = pieces(tile.text(), '\n').len();
            let lines = if n == 1 {
                "1 line"@
            } else {
                decimal(n) + " lines"@
            };
            let language = match tile.syntax {
                Some(name) => ", "@ + name,
                None => Seq::empty(),
            };
            let state = if tile.read_only is Some {
                ", "@ + "read-only"@
            } else if tile.saving is Some {
                ", "@ + "saving"@
            } else if tile.dirty {
                ", "@ + "edited"@
            } else {
                Seq::empty()
            };
            let trouble = match tile.trouble {
                Some(Stop::Conflict) => ", "@ + "changed on disk"@,
                Some(Stop::Failed(_)) => ", "@ + "not saved"@,
                None => Seq::empty(),
            };
            let changed = if tile.changed.len() > 0 {
                ", "@ + (decimal(tile.changed.len()) + " changed"@)
            } else {
                Seq::empty()
            };
            tile.summary() == lines + language + state + trouble + changed
        },
{
}

/// The find bar counts from one, says "none" where nothing is found, and nothing while there is
/// nothing to look for.
pub proof fn law_the_find_counts_from_one(tile: Tile, search: Finding)
    requires
        tile.search == Some(search),
    ensures
        search.needle.len() == 0 ==> tile.count().len() == 0,
        search.needle.len() > 0 && search.hits.len() == 0 ==> tile.count() == "none"@,
        search.needle.len() > 0 && search.hits.len() > 0 ==> (search.current matches Some(at)
            ==> tile.count() == decimal((at + 1) as nat) + "/"@ + decimal(search.hits.len())),
{
}

/// The line under the header warns of a conflict, says why a save failed, else why the file is
/// read-only, and is not there when all is well.
pub proof fn law_the_bar_says_what_is_wrong(tile: Tile)
    ensures
        tile.bar() is None <==> tile.trouble is None && tile.read_only is None,
        tile.trouble == Some(Stop::Conflict) ==> tile.bar() == Some(
            ("Changed on disk"@, Tone::Warn),
        ),
        tile.trouble matches Some(Stop::Failed(why)) ==> tile.bar() == Some(
            ("Not saved: "@ + why, Tone::Error),
        ),
        tile.trouble is None ==> (tile.read_only matches Some(why) ==> tile.bar() == Some(
            (why, Tone::Muted),
        )),
{
}

/// The reader's line counts from one: the one about to be shown where there is one, else the
/// caret's. A line that is asked for is about to be shown, and is remembered for the first text;
/// asking for none leaves what is about to be shown.
pub proof fn law_lines_count_from_one(tile: Tile, line: u32)
    requires
        line > 0,
    ensures
        tile.then_focus(Some(line)).read_line() == line,
        tile.then_focus(Some(line)).focus == Some((line - 1) as usize),
        tile.pending_line is None ==> tile.read_line() == tile.caret + 1,
        tile.then_focus(None).read_line() == tile.read_line(),
        tile.then_focus(None).focus is None,
        tile.then_focus(Some(0)) == tile.then_focus(Some(1)),
        tile.then_focus(Some(line)).text() == tile.text(),
{
}

/// The line that waits is shown once the text is there, the last where the text is shorter; then
/// nothing waits and the caret is on it.
pub proof fn law_a_waiting_line_is_shown_once(tile: Tile, line: usize)
    requires
        tile.pending_line == Some(line),
        pieces(tile.editor, '\n').len() <= usize::MAX,
    ensures
        ({
            let (next, shown) = tile.then_line_shown();
            let n = pieces(tile.editor, '\n').len();
            &&& line < n ==> shown == Some(line)
            &&& line >= n ==> shown == Some((n - 1) as usize)
            &&& next.pending_line is None && Some(next.caret) == shown
            &&& next.then_line_shown().1 is None
            &&& next.text() == tile.text() && next.dirty == tile.dirty
        }),
{
    lemma_pieces(tile.editor, '\n');
}

/// A text that waits goes into the editor once; the reader stays where they were exactly where no
/// line is to be shown. The tile holds the same text before and after.
pub proof fn law_a_waiting_text_is_taken_once(tile: Tile)
    ensures
        ({
            let (next, taken) = tile.then_text_taken();
            &&& next.text() == tile.text() && next.editor == tile.text()
            &&& next.then_text_taken().1 is None
            &&& tile.pending_text matches Some(text) ==> taken == Some(
                (text, tile.pending_line is None),
            )
            &&& tile.pending_text is None ==> taken is None && next == tile
        }),
{
}

/// A find bar that closes is told of, once; nothing of the text changes with it.
pub proof fn law_a_find_bar_closes_once(tile: Tile)
    ensures
        ({
            let (next, told) = tile.then_find_closed();
            &&& next.search is None
            &&& told is Some <==> tile.search is Some
            &&& told is Some ==> told == Some(Asked::FindClosed)
            &&& next.then_find_closed().1 is None
            &&& next.text() == tile.text() && next.dirty == tile.dirty && next.caret == tile.caret
        }),
{
}

/// The tile's body is the editor once there was a text, and a word about the file until then: that
/// it is being read, or what it is instead.
pub proof fn law_the_editor_shows_once_there_is_a_text(tile: Tile)
    ensures
        tile.read is None ==> tile.notice() == Some("reading…"@),
        tile.read matches Some(Read::Text { .. }) ==> tile.notice() is None,
        tile.read is Some && tile.base is Some ==> tile.notice() is None,
        tile.base is None ==> (tile.read matches Some(Read::Binary { size }) ==> tile.notice()
            == Some("binary, "@ + size_text(size as nat))),
        tile.base is None ==> (tile.read matches Some(Read::Missing { error }) ==> tile.notice()
            == Some("missing: "@ + error)),
{
}

/// A keystroke leaves the tile with what was typed: edited exactly where that differs from what the
/// file held when it was last in step, with no line marked as changed and the caret where it was put.
pub proof fn law_a_tile_is_edited_where_it_differs(tile: Tile, text: Seq<char>, caret: usize)
    ensures
        ({
            let next = tile.then_edited(text, caret);
            &&& next.editor == text && next.caret == caret && next.changed.len() == 0
            &&& tile.base matches Some(base) ==> (next.dirty <==> text != base.text)
            &&& tile.base is None ==> !next.dirty
            &&& next.base == tile.base && next.saving == tile.saving
        }),
{
}

/// What the disk has counts as the tile's own where the tile has it or sent it; an older copy of what
/// the edit started from changes nothing.
pub proof fn law_the_disk_has_what_was_sent(tile: Tile, incoming: Text)
    requires
        tile.dirty,
        !tile.discard,
    ensures
        incoming.text == tile.text() ==> {
            let next = tile.then_version(incoming);
            !next.dirty && next.base == Some(incoming) && next.trouble is None
        },
        incoming.text != tile.text() ==> (tile.saving matches Some(sent) ==> (sent.text
            == incoming.text ==> {
            let next = tile.then_version(incoming);
            next.dirty && next.base == Some(incoming) && next.trouble is None
        })),
        incoming.text != tile.text() && tile.saving is None ==> (tile.base matches Some(base) ==> (
        base.text == incoming.text && incoming.modified_ms <= base.modified_ms
            ==> tile.then_version(incoming) == tile)),
{
}

} // verus!
