//! A file tile: a text file on a worker, open to edit.
//!
//! The worker sends the text when the tile appears and again whenever the file changes on disk.
//! A save sends it back whole with the modification time the edit started from, so the worker
//! refuses to write over a change made meanwhile; the tile then offers to reload the disk's text
//! or overwrite it. A change on disk while the tile is clean reloads it without a word, marks the
//! lines that changed and goes to the first; while the tile is dirty the same change marks the
//! conflict instead, and the edit is kept. A file the worker clipped opens read-only.
use vstd::arithmetic::power2::{lemma2_to64, lemma_pow2_pos, pow2};
use vstd::prelude::*;

use crate::double::{
    half_even, lemma_half_even_ratio, lemma_nearest_whole, nearest, nearest_ratio, round_half_even,
    unit,
};
use crate::highlight::editor::{is_index, rows_of};
use crate::highlight::{for_file, meant, Bundle, Grammars, Syntax};
use crate::text::{
    any_capital, byte_len, bytes, chars_of, contains, decimal, decimal_tenths, find, has_capital,
    held, holds, is_first, lemma_pieces, lemma_starts_end, lemma_starts_grow, lowercase, part,
    piece_spans, pieces, push_decimal, push_tenths, same_text, spans_pieces, start_of, string_of,
    to_lowercase,
};

verus! {

/// The largest file that is opened to edit, in bytes.
pub const FILE_BYTES: u64 = 524_288;

/// The most lines of a file that are opened to edit.
pub const FILE_LINES: u64 = 2_000;

/// What a file tile tells the workspace.
#[derive(Debug, Clone, PartialEq, Eq)]
pub enum FileViewEvent {
    /// The find bar closed: the keyboard should go back to the editor.
    FindClosed,
    /// A save or an overwrite: write this text to the file.
    Save {
        /// The whole text, final newline included when the file had one.
        text: String,
        /// The version the edit started from; `None` overwrites whatever is there.
        base_modified_ms: Option<u64>,
    },
    /// A reload: the edit is dropped; the file is to be read again.
    Reload,
}

/// A version of the file: what the worker sent, or what this tile saved.
#[derive(Clone, Debug, PartialEq, Eq)]
pub struct Version {
    /// The text as the worker sends it, without the file's final newline.
    pub text: String,
    /// Whether the file ends with a newline, which the worker's text leaves off.
    pub newline: bool,
    /// Its modification time on disk, milliseconds since the Unix epoch.
    pub modified_ms: u64,
}

/// What a [`Version`] says.
pub struct Text {
    pub text: Seq<char>,
    pub newline: bool,
    pub modified_ms: u64,
}

impl View for Version {
    type V = Text;

    open spec fn view(&self) -> Text {
        Text { text: self.text@, newline: self.newline, modified_ms: self.modified_ms }
    }
}

/// What the file holds for the text `text`: a newline behind it where it has one.
pub open spec fn on_disk(text: Seq<char>, newline: bool) -> Seq<char> {
    if newline {
        text.push('\n')
    } else {
        text
    }
}

impl Version {
    /// The version a text read describes.
    pub fn of(text: &str, final_newline: bool, modified_ms: u64) -> (r: Version)
        ensures
            r@ == (Text { text: text@, newline: final_newline, modified_ms }),
    {
        Version { text: text.to_owned(), newline: final_newline, modified_ms }
    }

    /// The bytes the file holds for this text.
    pub fn file_text(&self, text: &str) -> (r: String)
        ensures
            r@ == on_disk(text@, self.newline),
    {
        let mut out = text.to_owned();
        if self.newline {
            out.push('\n');
        }
        out
    }

    fn copy(&self) -> (r: Version)
        ensures
            r@ == self@,
    {
        Version { text: self.text.clone(), newline: self.newline, modified_ms: self.modified_ms }
    }
}

/// Why the tile's text and the file disagree, with the way out offered inline.
#[derive(Clone, Debug, PartialEq, Eq)]
pub enum Trouble {
    /// The file changed on disk under an unsaved edit (or refused a save because it had).
    Conflict,
    /// The worker could not write the file; its word.
    Failed(String),
}

/// The texts that the strings `lines` hold.
pub open spec fn line_texts(lines: Seq<&str>) -> Seq<Seq<char>> {
    lines.map_values(|l: &str| l@)
}

/// `line` holds `needle`: as typed where the needle has a capital, in any case where it has none.
pub open spec fn is_hit(line: Seq<char>, needle: Seq<char>) -> bool {
    if has_capital(needle) {
        holds(line, needle)
    } else {
        holds(lowercase(line), lowercase(needle))
    }
}

/// The places of the lines that hold `needle`, in order; none for an empty needle.
pub open spec fn hits_of(lines: Seq<Seq<char>>, needle: Seq<char>) -> Seq<usize>
    decreases lines.len(),
{
    if lines.len() == 0 || needle.len() == 0 {
        Seq::empty()
    } else if is_hit(lines.last(), needle) {
        hits_of(lines.drop_last(), needle).push((lines.len() - 1) as usize)
    } else {
        hits_of(lines.drop_last(), needle)
    }
}

/// Whether `line` holds the needle. `folded` is the needle as it is looked for: as typed where
/// `sensitive`, its letters small else.
fn line_hit(line: &str, folded: &Vec<char>, sensitive: bool) -> (r: bool)
    ensures
        r == holds(
            if sensitive {
                line@
            } else {
                lowercase(line@)
            },
            folded@,
        ),
{
    if sensitive {
        let chars = chars_of(line);
        contains(chars.as_slice(), folded.as_slice())
    } else {
        let small = to_lowercase(line);
        let chars = chars_of(small.as_str());
        contains(chars.as_slice(), folded.as_slice())
    }
}

/// The lines holding `needle`, in order; none for an empty needle. Smart case: a needle with no
/// capital matches in any case, one with a capital as typed.
pub fn find_hits(lines: &[&str], needle: &str) -> (r: Vec<usize>)
    ensures
        r@ == hits_of(line_texts(lines@), needle@),
{
    let mut out: Vec<usize> = Vec::new();
    let typed = chars_of(needle);
    if typed.len() == 0 {
        return out;
    }
    let sensitive = any_capital(typed.as_slice());
    let folded: Vec<char> = if sensitive {
        typed
    } else {
        let small = to_lowercase(needle);
        chars_of(small.as_str())
    };
    let ghost all = line_texts(lines@);
    let mut i: usize = 0;
    assert(all.take(0) == Seq::<Seq<char>>::empty());
    while i < lines.len()
        invariant
            i <= lines.len(),
            all == line_texts(lines@),
            needle@.len() > 0,
            sensitive == has_capital(needle@),
            folded@ == if sensitive {
                needle@
            } else {
                lowercase(needle@)
            },
            out@ == hits_of(all.take(i as int), needle@),
        decreases lines.len() - i,
    {
        proof {
            let some = all.take(i + 1);
            assert(some.drop_last() == all.take(i as int));
            assert(some.last() == lines@[i as int]@);
        }
        if line_hit(lines[i], &folded, sensitive) {
            out.push(i);
        }
        i += 1;
    }
    assert(all.take(i as int) == all);
    out
}

/// The hits are exactly the lines that hold the needle, each once, in order.
pub proof fn law_hits_are_the_lines_that_hold_the_needle(lines: Seq<Seq<char>>, needle: Seq<char>)
    requires
        lines.len() <= usize::MAX,
        needle.len() > 0,
    ensures
        forall|i: usize|
            #[trigger] hits_of(lines, needle).contains(i) <==> i < lines.len() && is_hit(
                lines[i as int],
                needle,
            ),
        forall|a: int, b: int|
            0 <= a < b < hits_of(lines, needle).len() ==> hits_of(lines, needle)[a] < hits_of(
                lines,
                needle,
            )[b],
    decreases lines.len(),
{
    if lines.len() > 0 {
        let init = lines.drop_last();
        law_hits_are_the_lines_that_hold_the_needle(init, needle);
        let before = hits_of(init, needle);
        let now = hits_of(lines, needle);
        let last = (lines.len() - 1) as usize;
        assert forall|i: usize| #[trigger]
            now.contains(i) <==> i < lines.len() && is_hit(lines[i as int], needle) by {
            assert(before.contains(i) <==> i < init.len() && is_hit(init[i as int], needle));
            if i < last {
                assert(init[i as int] == lines[i as int]);
            }
            if now.contains(i) {
                let k = choose|k: int| 0 <= k < now.len() && now[k] == i;
                if k < before.len() {
                    assert(before[k] == i);
                    assert(before.contains(i));
                    assert(i < init.len() && is_hit(init[i as int], needle));
                }
            } else if i < last && is_hit(lines[i as int], needle) {
                assert(before.contains(i));
                let k = choose|k: int| 0 <= k < before.len() && before[k] == i;
                assert(now[k] == i);
            } else if i == last && is_hit(lines[i as int], needle) {
                assert(now[now.len() - 1] == i);
            }
        }
        assert forall|a: int, b: int| 0 <= a < b < now.len() implies now[a] < now[b] by {
            if b == before.len() {
                assert(before.contains(before[a]));
                assert(before[a] < init.len() && is_hit(init[before[a] as int], needle));
            }
        }
    } else {
        assert(hits_of(lines, needle) == Seq::<usize>::empty());
    }
}

/// A byte count as a human reads it: through a double, to a tenth.
pub open spec fn size_text(size: nat) -> Seq<char> {
    if size < 1024 {
        decimal(size) + " B"@
    } else if size < 1024 * 1024 {
        decimal_tenths(half_even(size * 10, 1024)) + " KB"@
    } else {
        decimal_tenths(half_even(nearest(size, 1) * 10, unit() * pow2(20))) + " MB"@
    }
}

/// A byte count as a human reads it.
pub fn size_label(size: u64) -> (r: String)
    ensures
        r@ == size_text(size as nat),
{
    let mut out = String::new();
    if size < 1024 {
        push_decimal(&mut out, size as u128);
        out.append(" B");
    } else if size < 1024 * 1024 {
        push_tenths(&mut out, round_half_even(size as u128 * 10, 1024));
        out.append(" KB");
    } else {
        push_tenths(&mut out, nearest_ratio(size, 1).tenths_over(20));
        out.append(" MB");
    }
    assert(out@ == size_text(size as nat));
    out
}

/// Up to 53 bits a size in megabytes is rounded once, from the exact ratio.
pub proof fn law_sizes_are_rounded_to_the_nearest_tenth(size: nat)
    requires
        1024 * 1024 <= size < 0x20_0000_0000_0000,
    ensures
        size_text(size) == decimal_tenths(half_even(size * 10, 1024 * 1024)) + " MB"@,
{
    lemma_nearest_whole(size);
    lemma_pow2_pos(200);
    lemma2_to64();
    let u = unit();
    assert((size * u) * 10 * (1024 * 1024) == (size * 10) * (u * (1024 * 1024))) by (nonlinear_arith);
    assert(u * (1024 * 1024) > 0) by (nonlinear_arith)
        requires
            u > 0,
    ;
    lemma_half_even_ratio((size * u) * 10, u * (1024 * 1024), size * 10, 1024 * 1024);
}

/// Why a file cannot be edited, when the worker clipped it.
pub open spec fn clipped(more_lines: u32, size: u64) -> Option<Seq<char>> {
    if size > FILE_BYTES {
        Some("Read-only: larger than "@ + size_text(FILE_BYTES as nat))
    } else if more_lines > 0 {
        Some("Read-only: longer than "@ + decimal(FILE_LINES as nat) + " lines"@)
    } else {
        None
    }
}

/// Why a read cannot be edited, when the worker clipped it: a save would cut the file there.
pub fn clipped_reason(more_lines: u32, size: u64) -> (r: Option<String>)
    ensures
        held(r) == clipped(more_lines, size),
{
    if size > FILE_BYTES {
        let mut out = String::from_str("Read-only: larger than ");
        out.append(size_label(FILE_BYTES).as_str());
        Some(out)
    } else if more_lines > 0 {
        let mut out = String::from_str("Read-only: longer than ");
        push_decimal(&mut out, FILE_LINES as u128);
        out.append(" lines");
        Some(out)
    } else {
        None
    }
}

/// One step from an old list of lines to a new one.
#[derive(Clone, Copy, PartialEq, Eq, Debug)]
pub enum DiffOp {
    /// Lines that stay.
    Equal { old_index: usize, new_index: usize, len: usize },
    /// Lines that come.
    Insert { new_index: usize, new_len: usize },
    /// Lines that come in the place of others.
    Replace { new_index: usize, new_len: usize },
    /// Lines that go.
    Delete,
}

/// The steps that similar finds from the lines `old` to the lines `new`.
pub uninterp spec fn diff(old: Seq<Seq<char>>, new: Seq<Seq<char>>) -> Seq<DiffOp>;

/// How many lines of the new list the steps lay down.
pub open spec fn laid(ops: Seq<DiffOp>) -> nat
    decreases ops.len(),
{
    if ops.len() == 0 {
        0
    } else {
        laid(ops.drop_last()) + match ops.last() {
            DiffOp::Equal { len, .. } => len as nat,
            DiffOp::Insert { new_len, .. } => new_len as nat,
            DiffOp::Replace { new_len, .. } => new_len as nat,
            DiffOp::Delete => 0,
        }
    }
}

/// Every step that lays lines down starts where those before it ended.
pub open spec fn in_order(ops: Seq<DiffOp>) -> bool {
    forall|i: int|
        0 <= i < ops.len() ==> match #[trigger] ops[i] {
            DiffOp::Equal { new_index, .. } => new_index == laid(ops.take(i)),
            DiffOp::Insert { new_index, .. } => new_index == laid(ops.take(i)),
            DiffOp::Replace { new_index, .. } => new_index == laid(ops.take(i)),
            DiffOp::Delete => true,
        }
}

/// The lines that a step keeps are the same in both lists.
pub open spec fn keeps(op: DiffOp, old: Seq<Seq<char>>, new: Seq<Seq<char>>) -> bool {
    op matches DiffOp::Equal { old_index, new_index, len } ==> {
        &&& old_index + len <= old.len()
        &&& new_index + len <= new.len()
        &&& old.subrange(old_index as int, old_index + len) == new.subrange(
            new_index as int,
            new_index + len,
        )
    }
}

/// `similar::TextDiff::from_slices` and `ops`: the steps from the one list of lines to the other.
/// One after the other they lay down the whole new list, what they keep stands in both lists, and
/// from a list to itself every line stays. The place that comes with a deletion is left aside:
/// once the crate has moved an insertion past one, it may name another line than the one where
/// the lines stood.
#[verifier::external_body]
fn diff_ops(old: &[&str], new: &[&str]) -> (r: Vec<DiffOp>)
    ensures
        r@ == diff(line_texts(old@), line_texts(new@)),
        in_order(r@),
        laid(r@) == new@.len(),
        forall|i: int|
            0 <= i < r@.len() ==> keeps(#[trigger] r@[i], line_texts(old@), line_texts(new@)),
        line_texts(old@) == line_texts(new@) ==> forall|i: int|
            0 <= i < r@.len() ==> (#[trigger] r@[i]) is Equal,
{
    let diff = similar::TextDiff::from_slices(old, new);
    diff.ops().iter().map(
        |op|
            match *op {
                similar::DiffOp::Equal { old_index, new_index, len } => DiffOp::Equal { old_index, new_index, len },
                similar::DiffOp::Insert { new_index, new_len, .. } => DiffOp::Insert { new_index, new_len },
                similar::DiffOp::Replace { new_index, new_len, .. } => DiffOp::Replace { new_index, new_len },
                similar::DiffOp::Delete { .. } => DiffOp::Delete,
            },
    ).collect()
}

/// The places from `from` on, `n` of them.
pub open spec fn places(from: nat, n: nat) -> Seq<usize> {
    Seq::new(n, |i: int| (from + i) as usize)
}

/// The lines a step points at in a new list of `n`, of which those before it laid down `at`: the
/// lines that come, and for lines that go the one now standing there, the last at most.
pub open spec fn pointed_at(op: DiffOp, at: nat, n: nat) -> Seq<usize> {
    match op {
        DiffOp::Equal { .. } => Seq::empty(),
        DiffOp::Insert { new_index, new_len } => places(new_index as nat, new_len as nat),
        DiffOp::Replace { new_index, new_len } => places(new_index as nat, new_len as nat),
        DiffOp::Delete => if n == 0 {
            Seq::empty()
        } else if at < n {
            seq![at as usize]
        } else {
            seq![(n - 1) as usize]
        },
    }
}

/// The lines that all the steps point at.
pub open spec fn all_pointed_at(ops: Seq<DiffOp>, n: nat) -> Seq<usize>
    decreases ops.len(),
{
    if ops.len() == 0 {
        Seq::empty()
    } else {
        all_pointed_at(ops.drop_last(), n) + pointed_at(ops.last(), laid(ops.drop_last()), n)
    }
}

/// `s` without what repeats the one before.
pub open spec fn without_repeats(s: Seq<usize>) -> Seq<usize>
    decreases s.len(),
{
    if s.len() == 0 {
        Seq::empty()
    } else {
        let before = without_repeats(s.drop_last());
        if before.len() > 0 && before.last() == s.last() {
            before
        } else {
            before.push(s.last())
        }
    }
}

/// Each place is above the one before.
pub open spec fn ascending(s: Seq<usize>) -> bool {
    forall|i: int, j: int| 0 <= i < j < s.len() ==> #[trigger] s[i] < #[trigger] s[j]
}

/// The lines of a new list of `n` that the steps change.
pub open spec fn changed_by(ops: Seq<DiffOp>, n: nat) -> Seq<usize> {
    without_repeats(all_pointed_at(ops, n))
}

/// The lines of `new` that differ from `old`.
pub open spec fn changed_of(old: Seq<char>, new: Seq<char>) -> Seq<usize> {
    changed_by(diff(pieces(old, '\n'), pieces(new, '\n')), pieces(new, '\n').len())
}

/// Adds `place` to the end of `out` unless it stands there.
fn add_place(out: &mut Vec<usize>, place: usize, Ghost(all): Ghost<Seq<usize>>)
    requires
        old(out)@ == without_repeats(all),
    ensures
        final(out)@ == without_repeats(all.push(place)),
{
    assert(all.push(place).drop_last() == all);
    let n: usize = out.len();
    if n > 0 && out[n - 1] == place {
        return;
    }
    out.push(place);
}

/// The lines of a new list of `n` that the steps `ops` change: every inserted or replaced line,
/// and for a pure deletion the line now standing where the deleted ones were (the last line at
/// most), so a deletion is still pointed at. They come in ascending order.
pub fn changed_from(ops: &Vec<DiffOp>, n: usize) -> (r: Vec<usize>)
    requires
        in_order(ops@),
        laid(ops@) == n,
    ensures
        r@ == changed_by(ops@, n as nat),
        ascending(r@),
        forall|i: int| 0 <= i < r@.len() ==> (#[trigger] r@[i]) < n,
{
    let mut out: Vec<usize> = Vec::new();
    let mut i: usize = 0;
    let mut at: usize = 0;
    let ghost mut all: Seq<usize> = Seq::empty();
    while i < ops.len()
        invariant
            i <= ops.len(),
            in_order(ops@),
            laid(ops@) == n,
            at == laid(ops@.take(i as int)),
            all == all_pointed_at(ops@.take(i as int), n as nat),
            out@ == without_repeats(all),
        decreases ops.len() - i,
    {
        let op = ops[i];
        let ghost some = ops@.take(i + 1);
        let ghost before = all;
        proof {
            assert(some.drop_last() == ops@.take(i as int));
            lemma_laid_grows(ops@, i + 1);
        }
        let (from, count, step) = match op {
            DiffOp::Equal { len, .. } => (at, 0, len),
            DiffOp::Insert { new_index, new_len } => (new_index, new_len, new_len),
            DiffOp::Replace { new_index, new_len } => (new_index, new_len, new_len),
            DiffOp::Delete => if n == 0 {
                (at, 0, 0)
            } else if at < n {
                (at, 1, 0)
            } else {
                (n - 1, 1, 0)
            },
        };
        let mut k: usize = 0;
        assert(places(from as nat, 0) == Seq::<usize>::empty());
        while k < count
            invariant
                k <= count,
                from + count <= n,
                all == before + places(from as nat, k as nat),
                out@ == without_repeats(all),
            decreases count - k,
        {
            add_place(&mut out, from + k, Ghost(all));
            proof {
                all = all.push((from + k) as usize);
                assert(all == before + places(from as nat, (k + 1) as nat));
            }
            k += 1;
        }
        assert(all == before + pointed_at(op, at as nat, n as nat));
        at += step;
        i += 1;
    }
    proof {
        assert(ops@.take(i as int) == ops@);
        lemma_pointed_in_order(ops@, n as nat);
        lemma_strict_without_repeats(all);
    }
    out
}

/// No step takes back what those before it laid down.
proof fn lemma_laid_grows(ops: Seq<DiffOp>, i: int)
    requires
        0 <= i <= ops.len(),
    ensures
        laid(ops.take(i)) <= laid(ops),
    decreases ops.len(),
{
    if i == ops.len() {
        assert(ops.take(i) == ops);
    } else {
        lemma_laid_grows(ops.drop_last(), i);
        assert(ops.drop_last().take(i) == ops.take(i));
    }
}

/// The steps before the last are in order too, and the last starts where they end.
proof fn lemma_first_in_order(ops: Seq<DiffOp>)
    requires
        in_order(ops),
        ops.len() > 0,
    ensures
        in_order(ops.drop_last()),
        match ops.last() {
            DiffOp::Equal { new_index, .. } => new_index == laid(ops.drop_last()),
            DiffOp::Insert { new_index, .. } => new_index == laid(ops.drop_last()),
            DiffOp::Replace { new_index, .. } => new_index == laid(ops.drop_last()),
            DiffOp::Delete => true,
        },
{
    let init = ops.drop_last();
    assert forall|i: int| 0 <= i < init.len() implies match #[trigger] init[i] {
        DiffOp::Equal { new_index, .. } => new_index == laid(init.take(i)),
        DiffOp::Insert { new_index, .. } => new_index == laid(init.take(i)),
        DiffOp::Replace { new_index, .. } => new_index == laid(init.take(i)),
        DiffOp::Delete => true,
    } by {
        assert(init[i] == ops[i]);
        assert(init.take(i) == ops.take(i));
    }
    assert(ops.take(ops.len() - 1) == init);
    assert(ops[ops.len() - 1] == ops.last());
}

/// The steps point at lines of the new list, no later one at a line above.
proof fn lemma_pointed_in_order(ops: Seq<DiffOp>, n: nat)
    requires
        in_order(ops),
        laid(ops) <= n <= usize::MAX,
    ensures
        forall|i: int|
            0 <= i < all_pointed_at(ops, n).len() ==> (#[trigger] all_pointed_at(ops, n)[i]) < n
                && all_pointed_at(ops, n)[i] <= laid(ops),
        forall|i: int, j: int|
            0 <= i < j < all_pointed_at(ops, n).len() ==> (#[trigger] all_pointed_at(ops, n)[i]) <= (
            #[trigger] all_pointed_at(ops, n)[j]),
    decreases ops.len(),
{
    if ops.len() > 0 {
        let init = ops.drop_last();
        lemma_first_in_order(ops);
        lemma_pointed_in_order(init, n);
        let before = all_pointed_at(init, n);
        let last = pointed_at(ops.last(), laid(init), n);
        let all = all_pointed_at(ops, n);
        assert(all == before + last);
        assert forall|i: int| 0 <= i < all.len() implies (#[trigger] all[i]) < n && all[i] <= laid(
            ops,
        ) by {
            if i < before.len() {
                assert(all[i] == before[i]);
            } else {
                assert(all[i] == last[i - before.len()]);
            }
        }
        assert forall|i: int, j: int| 0 <= i < j < all.len() implies (#[trigger] all[i]) <= (
        #[trigger] all[j]) by {
            if j < before.len() {
                assert(all[i] == before[i] && all[j] == before[j]);
            } else {
                assert(all[j] == last[j - before.len()]);
                if i < before.len() {
                    assert(all[i] == before[i]);
                } else {
                    assert(all[i] == last[i - before.len()]);
                }
            }
        }
    }
}

/// A list that nowhere falls is ascending once what repeats is left out, and loses no value.
proof fn lemma_strict_without_repeats(s: Seq<usize>)
    requires
        forall|i: int, j: int| 0 <= i < j < s.len() ==> #[trigger] s[i] <= #[trigger] s[j],
    ensures
        ascending(without_repeats(s)),
        s.len() > 0 ==> without_repeats(s).len() > 0 && without_repeats(s).last() == s.last(),
        forall|p: usize| s.contains(p) <==> #[trigger] without_repeats(s).contains(p),
    decreases s.len(),
{
    if s.len() > 0 {
        let init = s.drop_last();
        lemma_strict_without_repeats(init);
        let before = without_repeats(init);
        let now = without_repeats(s);
        if init.len() > 0 {
            assert(init.last() == s[s.len() - 2]);
        }
        if now != before {
            assert forall|i: int, j: int| 0 <= i < j < now.len() implies #[trigger] now[i]
                < #[trigger] now[j] by {
                assert(now[i] == before[i]);
                if j < before.len() {
                    assert(now[j] == before[j]);
                } else if i < before.len() - 1 {
                    assert(before[i] < before[before.len() - 1]);
                }
            }
        }
        assert forall|p: usize| s.contains(p) <==> #[trigger] now.contains(p) by {
            assert(init.contains(p) <==> before.contains(p));
            if s.contains(p) {
                let i = choose|i: int| 0 <= i < s.len() && s[i] == p;
                if i < init.len() {
                    assert(init[i] == p);
                    let j = choose|j: int| 0 <= j < before.len() && before[j] == p;
                    assert(now[j] == p);
                } else {
                    assert(now[now.len() - 1] == p);
                }
            }
            if now.contains(p) {
                let j = choose|j: int| 0 <= j < now.len() && now[j] == p;
                if j < before.len() {
                    assert(before[j] == p);
                    let i = choose|i: int| 0 <= i < init.len() && init[i] == p;
                    assert(s[i] == p);
                } else {
                    assert(s[s.len() - 1] == p);
                }
            }
        }
    }
}

/// A line that the steps lay down without pointing at it stands in the old list.
proof fn lemma_unpointed_stands_in_old(
    ops: Seq<DiffOp>,
    old: Seq<Seq<char>>,
    new: Seq<Seq<char>>,
    p: int,
)
    requires
        in_order(ops),
        forall|i: int| 0 <= i < ops.len() ==> keeps(#[trigger] ops[i], old, new),
        laid(ops) <= new.len() <= usize::MAX,
        0 <= p < laid(ops),
        !all_pointed_at(ops, new.len()).contains(p as usize),
    ensures
        old.contains(new[p]),
    decreases ops.len(),
{
    let n = new.len();
    let init = ops.drop_last();
    let before = all_pointed_at(init, n);
    let last = pointed_at(ops.last(), laid(init), n);
    let all = all_pointed_at(ops, n);
    assert(all == before + last);
    lemma_first_in_order(ops);
    if p < laid(init) {
        assert forall|i: int| 0 <= i < init.len() implies keeps(#[trigger] init[i], old, new) by {
            assert(init[i] == ops[i]);
        }
        if before.contains(p as usize) {
            let i = choose|i: int| 0 <= i < before.len() && before[i] == p as usize;
            assert(all[i] == p as usize);
        }
        lemma_unpointed_stands_in_old(init, old, new, p);
    } else {
        let op = ops[ops.len() - 1];
        let k = p - laid(init);
        match op {
            DiffOp::Equal { old_index, new_index, len } => {
                assert(keeps(op, old, new));
                assert(new.subrange(new_index as int, new_index + len)[k] == new[p]);
                assert(old.subrange(old_index as int, old_index + len)[k] == old[old_index + k]);
            },
            DiffOp::Delete => {},
            _ => {
                assert(last[k] == p as usize);
                assert(all[before.len() + k] == p as usize);
            },
        }
    }
}

/// The lines of `text`, as strings of their own.
pub fn split_lines(text: &str) -> (r: Vec<String>)
    ensures
        r@.len() == pieces(text@, '\n').len(),
        forall|i: int| 0 <= i < r@.len() ==> (#[trigger] r@[i])@ == pieces(text@, '\n')[i],
{
    let chars = chars_of(text);
    let spans = piece_spans(chars.as_slice(), '\n');
    let mut out: Vec<String> = Vec::new();
    let mut i: usize = 0;
    while i < spans.len()
        invariant
            i <= spans.len(),
            chars@ == text@,
            spans_pieces(spans@, chars@, '\n'),
            out@.len() == i,
            forall|k: int| 0 <= k < i ==> (#[trigger] out@[k])@ == pieces(text@, '\n')[k],
        decreases spans.len() - i,
    {
        let (from, to) = spans[i];
        out.push(string_of(part(chars.as_slice(), from, to)));
        i += 1;
    }
    out
}

/// The strings of `lines`, borrowed.
pub fn borrowed(lines: &Vec<String>) -> (r: Vec<&str>)
    ensures
        r@.len() == lines@.len(),
        forall|i: int| 0 <= i < r@.len() ==> (#[trigger] r@[i])@ == lines@[i]@,
{
    let mut out: Vec<&str> = Vec::new();
    let mut i: usize = 0;
    while i < lines.len()
        invariant
            i <= lines.len(),
            out@.len() == i,
            forall|k: int| 0 <= k < i ==> (#[trigger] out@[k])@ == lines@[k]@,
        decreases lines.len() - i,
    {
        out.push(lines[i].as_str());
        i += 1;
    }
    out
}

/// Lines (0-based) of `new` that differ from `old`, in ascending order: a line that is left out
/// stands in `old` too.
pub fn changed_lines(old: &str, new: &str) -> (r: Vec<usize>)
    ensures
        r@ == changed_of(old@, new@),
        old@ == new@ ==> r@.len() == 0,
        ascending(r@),
        forall|i: int| 0 <= i < r@.len() ==> (#[trigger] r@[i]) < pieces(new@, '\n').len(),
        forall|p: int|
            0 <= p < pieces(new@, '\n').len() && !r@.contains(p as usize) ==> pieces(
                old@,
                '\n',
            ).contains(#[trigger] pieces(new@, '\n')[p]),
{
    let old_lines = split_lines(old);
    let new_lines = split_lines(new);
    let a = borrowed(&old_lines);
    let b = borrowed(&new_lines);
    let ops = diff_ops(a.as_slice(), b.as_slice());
    let n: usize = b.len();
    let r = changed_from(&ops, n);
    proof {
        let was = pieces(old@, '\n');
        let now = pieces(new@, '\n');
        lemma_pieces(new@, '\n');
        assert(line_texts(a@) == was);
        assert(line_texts(b@) == now);
        if old@ == new@ {
            lemma_nothing_pointed_at(ops@, n as nat);
        }
        lemma_pointed_in_order(ops@, n as nat);
        lemma_strict_without_repeats(all_pointed_at(ops@, n as nat));
        assert forall|p: int| 0 <= p < now.len() && !r@.contains(p as usize) implies was.contains(
            #[trigger] now[p],
        ) by {
            lemma_unpointed_stands_in_old(ops@, was, now, p);
        }
    }
    r
}

/// Steps that keep every line point at none.
proof fn lemma_nothing_pointed_at(ops: Seq<DiffOp>, n: nat)
    requires
        forall|i: int| 0 <= i < ops.len() ==> (#[trigger] ops[i]) is Equal,
    ensures
        all_pointed_at(ops, n) == Seq::<usize>::empty(),
    decreases ops.len(),
{
    if ops.len() > 0 {
        lemma_nothing_pointed_at(ops.drop_last(), n);
        assert(ops.last() is Equal);
    }
}

/// What a worker says of a file.
#[derive(Clone, Debug, PartialEq, Eq)]
pub enum FileRead {
    /// A text, or as much of it as is shown.
    Text {
        /// The text, without the file's final newline.
        text: String,
        /// How many more lines the file has.
        more_lines: u32,
        /// The file's size in bytes.
        size: u64,
        /// When it was last changed, milliseconds since the Unix epoch.
        modified_ms: u64,
        /// Whether it ends with a newline.
        final_newline: bool,
    },
    /// Not a text.
    Binary {
        /// The file's size in bytes.
        size: u64,
    },
    /// It cannot be read; why.
    Missing {
        /// The reason.
        error: String,
    },
}

/// What a worker answers a save.
#[derive(Clone, Debug, PartialEq, Eq)]
pub enum WriteResult {
    /// Written.
    Saved {
        /// The file's size now.
        size: u64,
        /// When it was written.
        modified_ms: u64,
    },
    /// Refused: the file changed since the edit started.
    Conflict {
        /// When it was changed.
        modified_ms: u64,
    },
    /// It could not be written; why.
    Failed {
        /// The reason.
        error: String,
    },
}

/// The open find bar of a file tile.
struct FileSearch {
    /// What the hits are for.
    needle: String,
    /// Lines (0-based) holding the needle, in order.
    hits: Vec<usize>,
    /// Index into `hits` of the one the tile is on.
    current: Option<usize>,
}

/// The view of one file item.
pub struct FileView<'a> {
    all: &'a Grammars,
    id: u128,
    path: String,
    /// What the worker last said, `None` until it answers.
    read: Option<FileRead>,
    /// The version the edit started from, once there is text.
    base: Option<Version>,
    /// The text sent to be written, until the worker answers.
    saving: Option<Version>,
    /// What stops a save, shown as a line under the header with its way out.
    trouble: Option<Trouble>,
    /// The next read replaces the text whatever the edit (a reload was asked for).
    discard: bool,
    /// Why the text cannot be edited (the worker clipped it); none when it can.
    read_only: Option<String>,
    /// The editor's text, and the line its caret is on.
    editor: String,
    caret: usize,
    /// Text the editor takes at the next frame.
    pending_text: Option<String>,
    /// A line (0-based) for the caret once the text is in.
    pending_line: Option<usize>,
    /// Whether the editor holds something other than the base.
    dirty: bool,
    /// Lines (0-based) the last reload changed; empty on a first read and after an edit.
    changed: Vec<usize>,
    /// The line the tile was opened at: an edit's place in the file.
    focus: Option<usize>,
    /// The find bar, while open.
    search: Option<FileSearch>,
    /// The grammar the path (or first line) names; none for a file the bundle cannot colour.
    syntax: Option<Syntax<'a>>,
}

/// What a worker said of a file, in the model.
pub enum Read {
    Text { text: Seq<char>, more_lines: u32, size: u64, modified_ms: u64, final_newline: bool },
    Binary { size: u64 },
    Missing { error: Seq<char> },
}

impl View for FileRead {
    type V = Read;

    open spec fn view(&self) -> Read {
        match *self {
            FileRead::Text { text, more_lines, size, modified_ms, final_newline } => Read::Text {
                text: text@,
                more_lines,
                size,
                modified_ms,
                final_newline,
            },
            FileRead::Binary { size } => Read::Binary { size },
            FileRead::Missing { error } => Read::Missing { error: error@ },
        }
    }
}

/// What a worker answered a save, in the model.
pub enum Written {
    Saved { size: u64, modified_ms: u64 },
    Conflict { modified_ms: u64 },
    Failed { error: Seq<char> },
}

impl View for WriteResult {
    type V = Written;

    open spec fn view(&self) -> Written {
        match *self {
            WriteResult::Saved { size, modified_ms } => Written::Saved { size, modified_ms },
            WriteResult::Conflict { modified_ms } => Written::Conflict { modified_ms },
            WriteResult::Failed { error } => Written::Failed { error: error@ },
        }
    }
}

/// What stops a save, in the model.
pub enum Stop {
    Conflict,
    Failed(Seq<char>),
}

impl View for Trouble {
    type V = Stop;

    open spec fn view(&self) -> Stop {
        match *self {
            Trouble::Conflict => Stop::Conflict,
            Trouble::Failed(error) => Stop::Failed(error@),
        }
    }
}

/// What a tile asks for, in the model.
pub enum Asked {
    FindClosed,
    Save { text: Seq<char>, base_modified_ms: Option<u64> },
    Reload,
}

impl View for FileViewEvent {
    type V = Asked;

    open spec fn view(&self) -> Asked {
        match *self {
            FileViewEvent::FindClosed => Asked::FindClosed,
            FileViewEvent::Save { text, base_modified_ms } => Asked::Save {
                text: text@,
                base_modified_ms,
            },
            FileViewEvent::Reload => Asked::Reload,
        }
    }
}

/// The find bar, in the model.
pub struct Finding {
    pub needle: Seq<char>,
    pub hits: Seq<usize>,
    pub current: Option<usize>,
}

/// A file tile, in the model.
pub struct Tile {
    pub grammars: Bundle,
    pub id: u128,
    pub path: Seq<char>,
    pub read: Option<Read>,
    pub base: Option<Text>,
    pub saving: Option<Text>,
    pub trouble: Option<Stop>,
    pub discard: bool,
    pub read_only: Option<Seq<char>>,
    pub editor: Seq<char>,
    pub caret: usize,
    pub pending_text: Option<Seq<char>>,
    pub pending_line: Option<usize>,
    pub dirty: bool,
    pub changed: Seq<usize>,
    pub focus: Option<usize>,
    pub search: Option<Finding>,
    pub syntax: Option<Seq<char>>,
}

/// Which of `hits` a find that starts on the line `from` lands on: the first at or behind it,
/// else the first of all.
pub open spec fn landing(hits: Seq<usize>, from: usize) -> Option<usize> {
    if hits.len() == 0 {
        None
    } else if exists|i: int| first_from(hits, from, i) {
        Some((choose|i: int| first_from(hits, from, i)) as usize)
    } else {
        Some(0)
    }
}

/// The hit `i` is the first at or behind the line `from`.
pub open spec fn first_from(hits: Seq<usize>, from: usize, i: int) -> bool {
    0 <= i < hits.len() && hits[i] >= from && forall|k: int| 0 <= k < i ==> #[trigger] hits[k] < from
}

/// `a + b`, kept inside the range of an `i64`.
pub open spec fn added(a: int, b: int) -> int {
    if a + b > i64::MAX {
        i64::MAX as int
    } else if a + b < i64::MIN {
        i64::MIN as int
    } else {
        a + b
    }
}

/// Where a change points the reader: at the first changed line, or at the line the tile was
/// opened at when the text is the first.
pub open spec fn line_to_show(changed: Seq<usize>, first_text: bool, focus: Option<usize>) -> Option<
    usize,
> {
    if changed.len() > 0 {
        Some(changed[0])
    } else if first_text {
        focus
    } else {
        None
    }
}

impl Tile {
    /// The editor's text as it stands (the text about to arrive, while one is pending).
    pub open spec fn text(self) -> Seq<char> {
        match self.pending_text {
            Some(text) => text,
            None => self.editor,
        }
    }

    /// The hits counted again, and the find on the first at or behind the caret.
    pub open spec fn then_refresh(self) -> Tile {
        match self.search {
            None => self,
            Some(search) => {
                let hits = hits_of(pieces(self.text(), '\n'), search.needle);
                Tile {
                    search: Some(
                        Finding { needle: search.needle, hits, current: landing(hits, self.caret) },
                    ),
                    ..self
                }
            },
        }
    }

    /// The editor's text changed by a keystroke. What the last reload did and why the last save
    /// failed are no longer said.
    pub open spec fn then_edited(self, text: Seq<char>, caret: usize) -> Tile {
        Tile {
            editor: text,
            caret,
            changed: Seq::empty(),
            trouble: match self.trouble {
                Some(Stop::Failed(_)) => None,
                other => other,
            },
            dirty: match self.base {
                Some(base) => text != base.text,
                None => false,
            },
            ..self
        }.then_refresh()
    }

    /// The text becomes `incoming`, the edit (if any) dropped.
    pub open spec fn then_replace(self, incoming: Text) -> Tile {
        let reload = self.base is Some;
        let changed = if reload && !self.discard {
            changed_of(self.base->0.text, incoming.text)
        } else {
            Seq::empty()
        };
        Tile {
            changed,
            pending_line: line_to_show(changed, !reload, self.focus),
            syntax: if self.syntax is None || !reload {
                for_file(self.grammars, self.path, pieces(incoming.text, '\n')[0])
            } else {
                self.syntax
            },
            pending_text: Some(incoming.text),
            base: Some(incoming),
            dirty: false,
            discard: false,
            trouble: None,
            ..self
        }
    }

    /// A text version arrived: taken silently, kept as the new base under an edit that already
    /// matches it, or marked as a conflict with the edit.
    pub open spec fn then_version(self, incoming: Text) -> Tile {
        if !self.dirty || self.discard {
            if self.base != Some(incoming) || self.discard {
                self.then_replace(incoming)
            } else {
                self
            }
        } else if self.text() == incoming.text || (self.saving matches Some(sent) && sent.text
            == incoming.text) {
            Tile {
                dirty: self.text() != incoming.text,
                base: Some(incoming),
                trouble: None,
                ..self
            }
        } else if self.base matches Some(base) && base.text == incoming.text
            && incoming.modified_ms <= base.modified_ms {
            self
        } else {
            Tile { trouble: Some(Stop::Conflict), ..self }
        }
    }

    /// The worker read the file. Gone or turned binary under an edit, the edit stays.
    pub open spec fn then_read(self, read: Read) -> Tile {
        let next = match read {
            Read::Text { text, more_lines, size, modified_ms, final_newline } => Tile {
                read_only: clipped(more_lines, size),
                ..self
            }.then_version(Text { text, newline: final_newline, modified_ms }),
            _ => if self.dirty && !self.discard {
                Tile { trouble: Some(Stop::Conflict), ..self }
            } else {
                Tile { base: None, dirty: false, discard: false, trouble: None, ..self }
            },
        };
        Tile { read: Some(read), ..next }
    }

    /// What is sent to be written, on top of the version that was changed at `base_modified_ms`.
    pub open spec fn outgoing(self, base_modified_ms: Option<u64>) -> Text {
        Text {
            text: self.text(),
            newline: self.base matches Some(base) && base.newline,
            modified_ms: match base_modified_ms {
                Some(ms) => ms,
                None => 0,
            },
        }
    }

    /// The text sent to be written.
    pub open spec fn then_send(self, base_modified_ms: Option<u64>) -> (Tile, Option<Asked>) {
        let sent = self.outgoing(base_modified_ms);
        (
            Tile { saving: Some(sent), ..self },
            Some(Asked::Save { text: on_disk(sent.text, sent.newline), base_modified_ms }),
        )
    }

    /// A save: nothing when there is nothing to save, the text is clipped, a save is already
    /// out, or a conflict is waiting.
    pub open spec fn then_save(self) -> (Tile, Option<Asked>) {
        if self.dirty && self.read_only is None && self.saving is None && self.trouble != Some(
            Stop::Conflict,
        ) && self.base is Some {
            self.then_send(Some(self.base->0.modified_ms))
        } else {
            (self, None)
        }
    }

    /// An overwrite: the edit goes over whatever the disk has now.
    pub open spec fn then_overwrite(self) -> (Tile, Option<Asked>) {
        if self.read_only is None && self.saving is None {
            Tile { trouble: None, ..self }.then_send(None)
        } else {
            (self, None)
        }
    }

    /// A reload: the edit is to be dropped for the disk's text.
    pub open spec fn then_reload(self) -> (Tile, Option<Asked>) {
        (Tile { discard: true, trouble: None, ..self }, Some(Asked::Reload))
    }

    /// The worker answered a save.
    pub open spec fn then_written(self, result: Written) -> Tile {
        match self.saving {
            None => self,
            Some(sent) => match result {
                Written::Saved { modified_ms, .. } => Tile {
                    saving: None,
                    dirty: self.text() != sent.text,
                    base: Some(Text { modified_ms, ..sent }),
                    trouble: None,
                    ..self
                },
                Written::Conflict { .. } => Tile {
                    saving: None,
                    trouble: Some(Stop::Conflict),
                    ..self
                },
                Written::Failed { error } => Tile {
                    saving: None,
                    trouble: Some(Stop::Failed(error)),
                    ..self
                },
            },
        }
    }

    /// The line the reader is on, from one.
    pub open spec fn read_line(self) -> int {
        match self.pending_line {
            Some(line) => line + 1,
            None => self.caret + 1,
        }
    }

    /// The tile is to show the line `line`, from one.
    pub open spec fn then_focus(self, line: Option<u32>) -> Tile {
        match line {
            Some(l) => {
                let at = if l == 0 {
                    0usize
                } else {
                    (l - 1) as usize
                };
                Tile { focus: Some(at), pending_line: Some(at), ..self }
            },
            None => Tile { focus: None, ..self },
        }
    }

    /// The find bar closed, and what is told of it.
    pub open spec fn then_find_closed(self) -> (Tile, Option<Asked>) {
        (
            Tile { search: None, ..self },
            if self.search is Some {
                Some(Asked::FindClosed)
            } else {
                None
            },
        )
    }

    /// The line that waits for the caret, the text's last at most, and the tile with it there.
    pub open spec fn then_line_shown(self) -> (Tile, Option<usize>) {
        match self.pending_line {
            Some(line) => {
                let last = (pieces(self.editor, '\n').len() - 1) as usize;
                let shown = if line < last {
                    line
                } else {
                    last
                };
                (Tile { caret: shown, pending_line: None, ..self }, Some(shown))
            },
            None => (self, None),
        }
    }

    /// The text that waits for the editor, whether the reader stays where they were, and the tile
    /// with the text in its editor.
    pub open spec fn then_text_taken(self) -> (Tile, Option<(Seq<char>, bool)>) {
        match self.pending_text {
            Some(text) => (
                Tile { editor: text, pending_text: None, ..self },
                Some((text, self.pending_line is None)),
            ),
            None => (self, None),
        }
    }

    /// The word about the file that stands in its body; none where its editor is.
    pub open spec fn notice(self) -> Option<Seq<char>> {
        match self.read {
            None => Some("reading…"@),
            Some(read) => if !(read is Text) && self.base is None {
                Some(self.summary())
            } else {
                None
            },
        }
    }

    /// The find bar opened, empty where it was closed.
    pub open spec fn then_find(self) -> Tile {
        match self.search {
            Some(_) => self,
            None => Tile {
                search: Some(
                    Finding { needle: Seq::empty(), hits: Seq::empty(), current: None },
                ),
                ..self
            },
        }
    }

    /// The find bar's needle changed to `needle`.
    pub open spec fn then_needle(self, needle: Seq<char>) -> Tile {
        match self.search {
            None => self,
            Some(search) => Tile { search: Some(Finding { needle, ..search }), ..self }.then_refresh(),
        }
    }

    /// The find steps by `delta` hits, round and round.
    pub open spec fn then_step(self, delta: i64) -> Tile {
        match self.search {
            None => self,
            Some(search) => if search.hits.len() == 0 || search.hits.len() > i64::MAX {
                self
            } else {
                let at = match search.current {
                    Some(at) => at as int,
                    None => 0,
                };
                let next = added(at, delta as int) % search.hits.len() as int;
                Tile { search: Some(Finding { current: Some(next as usize), ..search }), ..self }
            },
        }
    }
}

impl FileSearch {
    spec fn said(self) -> Finding {
        Finding { needle: self.needle@, hits: self.hits@, current: self.current }
    }

    /// What is on is one of the hits.
    spec fn wf(self) -> bool {
        self.current matches Some(at) ==> at < self.hits@.len()
    }
}

/// What a value in `o` says.
pub open spec fn read_in(o: Option<FileRead>) -> Option<Read> {
    match o {
        Some(r) => Some(r@),
        None => None,
    }
}

/// What the version in `o` says.
pub open spec fn version_in(o: Option<Version>) -> Option<Text> {
    match o {
        Some(v) => Some(v@),
        None => None,
    }
}

/// What the trouble in `o` says.
pub open spec fn trouble_in(o: Option<Trouble>) -> Option<Stop> {
    match o {
        Some(t) => Some(t@),
        None => None,
    }
}

/// What the event in `o` says.
pub open spec fn asked_in(o: Option<FileViewEvent>) -> Option<Asked> {
    match o {
        Some(e) => Some(e@),
        None => None,
    }
}

impl<'a> View for FileView<'a> {
    type V = Tile;

    closed spec fn view(&self) -> Tile {
        Tile {
            grammars: self.all@,
            id: self.id,
            path: self.path@,
            read: read_in(self.read),
            base: version_in(self.base),
            saving: version_in(self.saving),
            trouble: trouble_in(self.trouble),
            discard: self.discard,
            read_only: held(self.read_only),
            editor: self.editor@,
            caret: self.caret,
            pending_text: held(self.pending_text),
            pending_line: self.pending_line,
            dirty: self.dirty,
            changed: self.changed@,
            focus: self.focus,
            search: match self.search {
                Some(search) => Some(search.said()),
                None => None,
            },
            syntax: meant(self.syntax),
        }
    }
}

/// Which of `hits` a find that starts on the line `from` lands on.
fn land(hits: &Vec<usize>, from: usize) -> (r: Option<usize>)
    ensures
        r == landing(hits@, from),
        r matches Some(at) ==> at < hits@.len(),
{
    if hits.len() == 0 {
        return None;
    }
    let mut i: usize = 0;
    while i < hits.len()
        invariant
            i <= hits.len(),
            forall|k: int| 0 <= k < i ==> #[trigger] hits@[k] < from,
        decreases hits.len() - i,
    {
        if hits[i] >= from {
            proof {
                assert(first_from(hits@, from, i as int));
                let j = choose|j: int| first_from(hits@, from, j);
                if j < i {
                    assert(hits@[j] < from);
                } else if i < j {
                    assert(hits@[i as int] < from);
                }
            }
            return Some(i);
        }
        i += 1;
    }
    proof {
        assert forall|j: int| !first_from(hits@, from, j) by {
            if 0 <= j < hits@.len() {
                assert(hits@[j] < from);
            }
        }
    }
    Some(0)
}

impl<'a> FileView<'a> {
    /// A find that is on a hit is on one of its hits.
    #[verifier::type_invariant]
    spec fn wf(self) -> bool {
        self.search matches Some(search) ==> search.wf()
    }

    /// A tile for `path`, waiting on the worker.
    pub fn new(all: &'a Grammars, id: u128, path: &str) -> (r: FileView<'a>)
        ensures
            r@ == (Tile {
                grammars: all@,
                id,
                path: path@,
                read: None,
                base: None,
                saving: None,
                trouble: None,
                discard: false,
                read_only: None,
                editor: Seq::empty(),
                caret: 0,
                pending_text: None,
                pending_line: None,
                dirty: false,
                changed: Seq::empty(),
                focus: None,
                search: None,
                syntax: None,
            }),
    {
        FileView {
            all,
            id,
            path: path.to_owned(),
            read: None,
            base: None,
            saving: None,
            trouble: None,
            discard: false,
            read_only: None,
            editor: String::new(),
            caret: 0,
            pending_text: None,
            pending_line: None,
            dirty: false,
            changed: Vec::new(),
            focus: None,
            search: None,
            syntax: None,
        }
    }

    /// Item this tile belongs to.
    pub fn id(&self) -> (r: u128)
        ensures
            r == self@.id,
    {
        self.id
    }

    /// The path on the worker.
    pub fn path(&self) -> (r: &str)
        ensures
            r@ == self@.path,
    {
        self.path.as_str()
    }

    /// What the worker last said, once it has.
    pub fn read(&self) -> (r: Option<&FileRead>)
        ensures
            r is Some == self@.read is Some,
            r matches Some(read) ==> self@.read == Some(read@),
    {
        self.read.as_ref()
    }

    /// The editor's text as it stands (the text about to arrive, while one is pending).
    pub fn text(&self) -> (r: String)
        ensures
            r@ == self@.text(),
    {
        match &self.pending_text {
            Some(text) => text.clone(),
            None => self.editor.clone(),
        }
    }

    /// The text's lines, as the editor holds them.
    pub fn lines(&self) -> (r: Vec<String>)
        ensures
            r@.len() == pieces(self@.text(), '\n').len(),
            forall|i: int| 0 <= i < r@.len() ==> (#[trigger] r@[i])@ == pieces(self@.text(), '\n')[i],
    {
        let text = self.text();
        split_lines(text.as_str())
    }

    /// Lines in the editor.
    pub fn line_count(&self) -> (r: usize)
        ensures
            r == pieces(self@.text(), '\n').len(),
            r >= 1,
    {
        let text = self.text();
        let chars = chars_of(text.as_str());
        proof {
            lemma_pieces(text@, '\n');
        }
        piece_spans(chars.as_slice(), '\n').len()
    }

    /// Whether the editor holds an edit not yet saved.
    pub fn dirty(&self) -> (r: bool)
        ensures
            r == self@.dirty,
    {
        self.dirty
    }

    /// Whether a save is waiting on the worker.
    pub fn saving(&self) -> (r: bool)
        ensures
            r == self@.saving is Some,
    {
        self.saving.is_some()
    }

    /// What stops a save, if anything.
    pub fn trouble(&self) -> (r: Option<&Trouble>)
        ensures
            r is Some == self@.trouble is Some,
            r matches Some(t) ==> self@.trouble == Some(t@),
    {
        self.trouble.as_ref()
    }

    /// Why the text cannot be edited, when it cannot.
    pub fn read_only(&self) -> (r: Option<&str>)
        ensures
            r is Some == self@.read_only is Some,
            r matches Some(why) ==> self@.read_only == Some(why@),
    {
        match &self.read_only {
            Some(why) => Some(why.as_str()),
            None => None,
        }
    }

    /// The lines the last reload changed (0-based).
    pub fn changed(&self) -> (r: &[usize])
        ensures
            r@ == self@.changed,
    {
        self.changed.as_slice()
    }

    /// The grammar's name ("Rust"), for a file the bundle can colour.
    pub fn coloured_as(&self) -> (r: Option<&str>)
        ensures
            r is Some == self@.syntax is Some,
            r matches Some(name) ==> self@.syntax == Some(name@),
    {
        match &self.syntax {
            Some(syntax) => Some(syntax.name()),
            None => None,
        }
    }

    /// The caret's line, 1-based.
    pub fn reading_line(&self) -> (r: Option<u32>)
        ensures
            self@.read_line() <= u32::MAX ==> r == Some(self@.read_line() as u32),
            ({
                let line = match self@.pending_line {
                    Some(line) => line,
                    None => self@.caret,
                };
                &&& line < u32::MAX ==> r == Some((line + 1) as u32)
                &&& line >= u32::MAX ==> r is None
            }),
    {
        let line: usize = match self.pending_line {
            Some(line) => line,
            None => self.caret,
        };
        if line < u32::MAX as usize {
            Some((line + 1) as u32)
        } else {
            None
        }
    }

    /// Land the caret on `line` (1-based, as a tool names it), now if the text is here, else
    /// when it arrives. `None` leaves the caret.
    pub fn focus_line(&mut self, line: Option<u32>)
        ensures
            final(self)@ == old(self)@.then_focus(line),
            ({
                let focus: Option<usize> = match line {
                    Some(0u32) => Some(0usize),
                    Some(l) => Some((l - 1) as usize),
                    None => None,
                };
                final(self)@ == Tile {
                    focus,
                    pending_line: if focus is Some {
                        focus
                    } else {
                        old(self)@.pending_line
                    },
                    ..old(self)@
                }
            }),
    {
        proof {
            use_type_invariant(&*self);
        }
        self.focus = match line {
            Some(l) => Some(
                if l == 0 {
                    0
                } else {
                    (l - 1) as usize
                },
            ),
            None => None,
        };
        if self.focus.is_some() {
            self.pending_line = self.focus;
        }
    }

    /// The caret moved to `line`.
    pub fn moved(&mut self, line: usize)
        ensures
            final(self)@ == (Tile { caret: line, ..old(self)@ }),
    {
        proof {
            use_type_invariant(&*self);
        }
        self.caret = line;
    }

    /// The editor's text changed by a keystroke, which left the caret on the line `caret`.
    pub fn edited(&mut self, text: String, caret: usize)
        ensures
            final(self)@ == old(self)@.then_edited(text@, caret),
    {
        proof {
            use_type_invariant(&*self);
        }
        self.dirty = match &self.base {
            Some(base) => !same_text(text.as_str(), base.text.as_str()),
            None => false,
        };
        self.editor = text;
        self.caret = caret;
        // The marks said what the last reload did; once the human edits, they say nothing.
        self.changed = Vec::new();
        if let Some(Trouble::Failed(_)) = self.trouble {
            self.trouble = None;
        }
        self.refresh_hits();
    }

    /// The worker read the file (the first time, after a change on disk, or on a reload).
    pub fn set_read(&mut self, read: FileRead)
        ensures
            final(self)@ == old(self)@.then_read(read@),
    {
        proof {
            use_type_invariant(&*self);
        }
        match &read {
            FileRead::Text { text, more_lines, size, modified_ms, final_newline } => {
                let incoming = Version::of(text.as_str(), *final_newline, *modified_ms);
                self.read_only = clipped_reason(*more_lines, *size);
                self.take_version(incoming);
            },
            _ => {
                if self.dirty && !self.discard {
                    // Gone or turned binary under an edit: the edit stays, an overwrite puts
                    // it back.
                    self.trouble = Some(Trouble::Conflict);
                } else {
                    self.base = None;
                    self.dirty = false;
                    self.discard = false;
                    self.trouble = None;
                }
            },
        }
        self.read = Some(read);
    }

    /// A text version arrived: taken silently, kept as the new base under an edit that already
    /// matches it, or marked as a conflict with the edit.
    fn take_version(&mut self, incoming: Version)
        ensures
            final(self)@ == old(self)@.then_version(incoming@),
    {
        proof {
            use_type_invariant(&*self);
        }
        let current = self.text();
        if !self.dirty || self.discard {
            let known: bool = match &self.base {
                Some(base) => same_text(base.text.as_str(), incoming.text.as_str()) && base.newline
                    == incoming.newline && base.modified_ms == incoming.modified_ms,
                None => false,
            };
            if !known || self.discard {
                self.replace(incoming);
            }
            return;
        }
        let matches: bool = same_text(current.as_str(), incoming.text.as_str());
        let ours: bool = match &self.saving {
            Some(sent) => same_text(sent.text.as_str(), incoming.text.as_str()),
            None => false,
        };
        if matches || ours {
            // The disk has what this tile has (or what it just sent): nothing to settle.
            self.dirty = !matches;
            self.base = Some(incoming);
            self.trouble = None;
            return;
        }
        let stale: bool = match &self.base {
            Some(base) => same_text(base.text.as_str(), incoming.text.as_str())
                && incoming.modified_ms <= base.modified_ms,
            None => false,
        };
        if !stale {
            self.trouble = Some(Trouble::Conflict);
        }
    }

    /// The text becomes `incoming`, the edit (if any) dropped.
    fn replace(&mut self, incoming: Version)
        ensures
            final(self)@ == old(self)@.then_replace(incoming@),
    {
        proof {
            use_type_invariant(&*self);
        }
        let reload = self.base.is_some();
        self.changed = match &self.base {
            Some(base) => if self.discard {
                Vec::new()
            } else {
                changed_lines(base.text.as_str(), incoming.text.as_str())
            },
            None => Vec::new(),
        };
        // A changed line is the reason for this read; the opening line is where a first text
        // lands.
        self.pending_line = if self.changed.len() > 0 {
            Some(self.changed[0])
        } else if reload {
            None
        } else {
            self.focus
        };
        if self.syntax.is_none() || !reload {
            let lines = split_lines(incoming.text.as_str());
            proof {
                lemma_pieces(incoming.text@, '\n');
            }
            self.syntax = Syntax::for_path(self.all, self.path.as_str(), lines[0].as_str());
        }
        self.pending_text = Some(incoming.text.clone());
        self.base = Some(incoming);
        self.dirty = false;
        self.discard = false;
        self.trouble = None;
    }

    /// Send the edit, based on the version it started from. Nothing when there is nothing to
    /// save, the text is clipped, a save is already out, or a conflict is waiting for a reload or
    /// an overwrite.
    pub fn save(&mut self) -> (r: Option<FileViewEvent>)
        ensures
            (final(self)@, asked_in(r)) == old(self)@.then_save(),
    {
        proof {
            use_type_invariant(&*self);
        }
        if !self.dirty || self.read_only.is_some() || self.saving.is_some() {
            return None;
        }
        if let Some(Trouble::Conflict) = self.trouble {
            return None;
        }
        let base_ms: u64 = match &self.base {
            Some(base) => base.modified_ms,
            None => {
                return None;
            },
        };
        self.send(Some(base_ms))
    }

    /// Write the edit over whatever the disk has now.
    pub fn overwrite(&mut self) -> (r: Option<FileViewEvent>)
        ensures
            (final(self)@, asked_in(r)) == old(self)@.then_overwrite(),
    {
        proof {
            use_type_invariant(&*self);
        }
        if self.read_only.is_some() || self.saving.is_some() {
            return None;
        }
        self.trouble = None;
        self.send(None)
    }

    fn send(&mut self, base_modified_ms: Option<u64>) -> (r: Option<FileViewEvent>)
        ensures
            (final(self)@, asked_in(r)) == old(self)@.then_send(base_modified_ms),
    {
        proof {
            use_type_invariant(&*self);
        }
        let text = self.text();
        let newline: bool = match &self.base {
            Some(base) => base.newline,
            None => false,
        };
        let modified_ms: u64 = match base_modified_ms {
            Some(ms) => ms,
            None => 0,
        };
        let sent = Version { text, newline, modified_ms };
        let file = sent.file_text(sent.text.as_str());
        self.saving = Some(sent);
        Some(FileViewEvent::Save { text: file, base_modified_ms })
    }

    /// Drop the edit and take the disk's text.
    pub fn reload(&mut self) -> (r: Option<FileViewEvent>)
        ensures
            (final(self)@, asked_in(r)) == old(self)@.then_reload(),
    {
        proof {
            use_type_invariant(&*self);
        }
        self.discard = true;
        self.trouble = None;
        Some(FileViewEvent::Reload)
    }

    /// The worker answered a save.
    pub fn written(&mut self, result: WriteResult)
        ensures
            final(self)@ == old(self)@.then_written(result@),
    {
        proof {
            use_type_invariant(&*self);
        }
        let mut saving: Option<Version> = None;
        std::mem::swap(&mut saving, &mut self.saving);
        let Some(sent) = saving else {
            return;
        };
        match result {
            WriteResult::Saved { modified_ms, .. } => {
                let text = self.text();
                self.dirty = !same_text(text.as_str(), sent.text.as_str());
                self.base = Some(
                    Version { text: sent.text, newline: sent.newline, modified_ms },
                );
                self.trouble = None;
            },
            WriteResult::Conflict { .. } => {
                self.trouble = Some(Trouble::Conflict);
            },
            WriteResult::Failed { error } => {
                self.trouble = Some(Trouble::Failed(error));
            },
        }
    }

    /// Open the find bar, or leave it as it is where it is open.
    pub fn find(&mut self)
        ensures
            final(self)@ == old(self)@.then_find(),
    {
        proof {
            use_type_invariant(&*self);
        }
        if self.search.is_none() {
            self.search = Some(
                FileSearch { needle: String::new(), hits: Vec::new(), current: None },
            );
        }
    }

    /// Open the find bar on `needle` (a find in every tile chose this one): the tile lands on
    /// the first hit.
    pub fn find_with(&mut self, needle: &str)
        ensures
            final(self)@ == old(self)@.then_find().then_needle(needle@),
    {
        proof {
            use_type_invariant(&*self);
        }
        self.find();
        self.set_needle(needle);
    }

    fn set_needle(&mut self, needle: &str)
        ensures
            final(self)@ == old(self)@.then_needle(needle@),
    {
        proof {
            use_type_invariant(&*self);
        }
        let mut search: Option<FileSearch> = None;
        std::mem::swap(&mut search, &mut self.search);
        let Some(search) = search else {
            return;
        };
        self.search = Some(
            FileSearch {
                needle: needle.to_owned(),
                hits: search.hits,
                current: search.current,
            },
        );
        self.refresh_hits();
    }

    /// The find bar's needle, when the bar is open.
    pub fn search_needle(&self) -> (r: Option<&str>)
        ensures
            r is Some == self@.search is Some,
            r matches Some(needle) ==> self@.search->0.needle == needle@,
    {
        match &self.search {
            Some(search) => Some(search.needle.as_str()),
            None => None,
        }
    }

    /// Close the find bar; the editor takes the keyboard back.
    pub fn close_find(&mut self) -> (r: Option<FileViewEvent>)
        ensures
            (final(self)@, asked_in(r)) == old(self)@.then_find_closed(),
            final(self)@ == (Tile { search: None, ..old(self)@ }),
            asked_in(r) == if old(self)@.search is Some {
                Some(Asked::FindClosed)
            } else {
                None
            },
    {
        proof {
            use_type_invariant(&*self);
        }
        if self.search.is_some() {
            self.search = None;
            Some(FileViewEvent::FindClosed)
        } else {
            None
        }
    }

    /// Whether the find bar is open.
    pub fn finding(&self) -> (r: bool)
        ensures
            r == self@.search is Some,
    {
        self.search.is_some()
    }

    /// The lines found (0-based) and which one the tile is on.
    pub fn hits(&self) -> (r: Option<(&[usize], Option<usize>)>)
        ensures
            r is Some == self@.search is Some,
            r matches Some((hits, current)) ==> hits@ == self@.search->0.hits && current
                == self@.search->0.current,
    {
        match &self.search {
            Some(search) => Some((search.hits.as_slice(), search.current)),
            None => None,
        }
    }

    /// The find bar's field holds `needle` now.
    pub fn search_changed(&mut self, needle: &str)
        ensures
            final(self)@ == if old(self)@.search matches Some(search) && search.needle != needle@ {
                old(self)@.then_needle(needle@)
            } else {
                old(self)@
            },
    {
        proof {
            use_type_invariant(&*self);
        }
        let same: bool = match &self.search {
            Some(search) => same_text(search.needle.as_str(), needle),
            None => true,
        };
        if !same {
            self.set_needle(needle);
        }
    }

    /// Recount the hits for the needle (it, or the text, changed) and land on the first at or
    /// after the caret.
    fn refresh_hits(&mut self)
        ensures
            final(self)@ == old(self)@.then_refresh(),
    {
        proof {
            use_type_invariant(&*self);
        }
        let mut search: Option<FileSearch> = None;
        std::mem::swap(&mut search, &mut self.search);
        let Some(search) = search else {
            return;
        };
        let lines = self.lines();
        let refs = borrowed(&lines);
        let hits = find_hits(refs.as_slice(), search.needle.as_str());
        proof {
            assert(line_texts(refs@) == pieces(self@.text(), '\n'));
        }
        let current = land(&hits, self.caret);
        self.search = Some(FileSearch { needle: search.needle, hits, current });
    }
}

/// `x` counted round and round through `n`.
fn round(x: i128, n: u64) -> (r: usize)
    requires
        0 < n <= i64::MAX,
        n <= usize::MAX,
        i64::MIN <= x <= i64::MAX,
    ensures
        r == (x as int) % (n as int),
        r < n,
{
    if x >= 0 {
        (x as u128 % n as u128) as usize
    } else {
        let back: u128 = (-x) as u128;
        let over: u128 = back % n as u128;
        proof {
            let (q, m) = (back as int / n as int, n as int);
            assert(back as int == m * q + over) by {
                vstd::arithmetic::div_mod::lemma_fundamental_div_mod(back as int, m);
            }
            if over == 0 {
                assert(x as int == (-q) * m + 0) by (nonlinear_arith)
                    requires
                        back == m * q + over,
                        back == -x,
                        over == 0,
                ;
                vstd::arithmetic::div_mod::lemma_fundamental_div_mod_converse(x as int, m, -q, 0);
            } else {
                assert(x as int == (-q - 1) * m + (m - over)) by (nonlinear_arith)
                    requires
                        back == m * q + over,
                        back == -x,
                ;
                vstd::arithmetic::div_mod::lemma_fundamental_div_mod_converse(
                    x as int,
                    m,
                    -q - 1,
                    m - over,
                );
            }
        }
        if over == 0 {
            0
        } else {
            (n as u128 - over) as usize
        }
    }
}

/// What a tint over some lines says.
#[derive(Clone, Copy, PartialEq, Eq, Structural, Debug)]
pub enum Tint {
    /// The last reload changed them.
    Changed,
    /// The find found them.
    Hit,
}

/// A tint over the bytes from `start` to `end`.
#[derive(Clone, Copy, PartialEq, Eq, Structural, Debug)]
pub struct Mark {
    pub start: usize,
    pub end: usize,
    pub tint: Tint,
}

/// The tint over the row `row`: its bytes, and one at least.
pub open spec fn mark_of(text: Seq<char>, row: int, tint: Tint) -> Mark {
    let parts = pieces(text, '\n');
    let start = start_of(parts, row);
    let size = bytes(parts[row]);
    Mark {
        start: start as usize,
        end: limited(
            start + if size == 0 {
                1
            } else {
                size
            },
        ) as usize,
        tint,
    }
}

/// The tints over those of `rows` that the text has.
pub open spec fn marks_of(text: Seq<char>, rows: Seq<usize>, tint: Tint) -> Seq<Mark>
    decreases rows.len(),
{
    if rows.len() == 0 {
        Seq::empty()
    } else if rows.last() < pieces(text, '\n').len() {
        marks_of(text, rows.drop_last(), tint).push(mark_of(text, rows.last() as int, tint))
    } else {
        marks_of(text, rows.drop_last(), tint)
    }
}

/// Adds the tints over those of `rows` that the text has.
fn add_marks(
    out: &mut Vec<Mark>,
    rows: &[usize],
    tint: Tint,
    starts: &Vec<usize>,
    sizes: &Vec<usize>,
    Ghost(text): Ghost<Seq<char>>,
)
    requires
        is_index(text, starts@, sizes@),
        bytes(text) <= usize::MAX,
    ensures
        final(out)@ == old(out)@ + marks_of(text, rows@, tint),
{
    let ghost before = out@;
    let mut i: usize = 0;
    assert(rows@.take(0) == Seq::<usize>::empty());
    while i < rows.len()
        invariant
            i <= rows.len(),
            is_index(text, starts@, sizes@),
            bytes(text) <= usize::MAX,
            out@ == before + marks_of(text, rows@.take(i as int), tint),
        decreases rows.len() - i,
    {
        let row: usize = rows[i];
        let ghost some = rows@.take(i + 1);
        assert(some.drop_last() == rows@.take(i as int));
        if row < starts.len() {
            let start: usize = starts[row];
            let size: usize = sizes[row];
            proof {
                let parts = pieces(text, '\n');
                lemma_starts_end(text, '\n');
                lemma_starts_grow(parts, row as int, parts.len() as int);
            }
            let end: usize = if size == 0 {
                start.saturating_add(1)
            } else {
                start + size
            };
            out.push(Mark { start, end, tint });
        }
        assert(out@ == before + marks_of(text, some, tint));
        i += 1;
    }
    assert(rows@.take(i as int) == rows@);
}

/// What is selected to show a hit: the needle where it stands in the row, found as the find
/// finds it; the row's start where it does not.
pub open spec fn selection(text: Seq<char>, row: int, needle: Seq<char>, at: Option<nat>) -> (
    nat,
    nat,
) {
    let parts = pieces(text, '\n');
    let start = if row < parts.len() {
        start_of(parts, row)
    } else {
        bytes(text)
    };
    let from = limited(
        start + match at {
            Some(at) => at,
            None => 0,
        },
    );
    let to = limited(
        from + if at is Some {
            bytes(needle)
        } else {
            0
        },
    );
    (
        from,
        if to < bytes(text) {
            to
        } else {
            bytes(text)
        },
    )
}

/// `n` as a count of bytes that stops at its end.
pub open spec fn limited(n: nat) -> nat {
    if n <= usize::MAX {
        n
    } else {
        usize::MAX as nat
    }
}

/// `at` is where `needle` stands first in `row`, in bytes of the row as it is looked through.
pub open spec fn stands_in_row(row: Seq<char>, needle: Seq<char>, at: Option<nat>) -> bool {
    match at {
        Some(at) => exists|k: int| #[trigger]
            is_first(folded(row, needle), folded(needle, needle), k) && at == bytes(
                folded(row, needle).take(k),
            ),
        None => !holds(folded(row, needle), folded(needle, needle)),
    }
}

/// `text` as it is looked through for `needle`: as it is where the needle has a capital, its
/// letters small else.
pub open spec fn folded(text: Seq<char>, needle: Seq<char>) -> Seq<char> {
    if has_capital(needle) {
        text
    } else {
        lowercase(text)
    }
}

/// The row `row` of `text`; nothing past its last.
pub open spec fn row_of(text: Seq<char>, row: int) -> Seq<char> {
    if row < pieces(text, '\n').len() {
        pieces(text, '\n')[row]
    } else {
        Seq::empty()
    }
}

/// Where `needle` stands first in `row`, in bytes of the row as it is looked through.
fn place_in_row(row: &str, needle: &str) -> (r: Option<usize>)
    ensures
        stands_in_row(
            row@,
            needle@,
            match r {
                Some(at) => Some(at as nat),
                None => None,
            },
        ),
{
    let typed = chars_of(needle);
    let sensitive = any_capital(typed.as_slice());
    let looked = if sensitive {
        chars_of(row)
    } else {
        let small = to_lowercase(row);
        chars_of(small.as_str())
    };
    let sought = if sensitive {
        typed
    } else {
        let small = to_lowercase(needle);
        chars_of(small.as_str())
    };
    assert(looked@ == folded(row@, needle@));
    assert(sought@ == folded(needle@, needle@));
    match find(looked.as_slice(), sought.as_slice()) {
        Some(k) => {
            let before = string_of(part(looked.as_slice(), 0, k));
            let at: usize = byte_len(before.as_str());
            proof {
                assert(before@ == looked@.take(k as int));
                assert(is_first(folded(row@, needle@), folded(needle@, needle@), k as int));
            }
            Some(at)
        },
        None => None,
    }
}

impl<'a> FileView<'a> {
    /// The next hit (`1`) or the one before (`-1`), wrapping.
    pub fn step_hit(&mut self, delta: i64)
        ensures
            final(self)@ == old(self)@.then_step(delta),
    {
        proof {
            use_type_invariant(&*self);
        }
        let mut search: Option<FileSearch> = None;
        std::mem::swap(&mut search, &mut self.search);
        let Some(search) = search else {
            return;
        };
        let count: usize = search.hits.len();
        if count == 0 || count as u128 > i64::MAX as u128 {
            self.search = Some(search);
            return;
        }
        let at: usize = match search.current {
            Some(at) => at,
            None => 0,
        };
        let sum: i128 = at as i128 + delta as i128;
        let kept: i128 = if sum > i64::MAX as i128 {
            i64::MAX as i128
        } else if sum < i64::MIN as i128 {
            i64::MIN as i128
        } else {
            sum
        };
        let next: usize = round(kept, count as u64);
        self.search = Some(
            FileSearch { needle: search.needle, hits: search.hits, current: Some(next) },
        );
    }

    /// What to select to show the hit the find is on, in bytes of the editor's text; none where
    /// it is on none.
    pub fn hit_selection(&self) -> (r: Option<(usize, usize)>)
        ensures
            r is Some == (self@.search matches Some(search) && search.current is Some),
            r matches Some((from, to)) ==> {
                let search = self@.search->0;
                let row = search.hits[search.current->0 as int] as int;
                exists|at: Option<nat>| #[trigger]
                    stands_in_row(row_of(self@.editor, row), search.needle, at) && from == selection(
                        self@.editor,
                        row,
                        search.needle,
                        at,
                    ).0 && to == selection(self@.editor, row, search.needle, at).1
            },
    {
        proof {
            use_type_invariant(self);
        }
        let Some(search) = &self.search else {
            return None;
        };
        let Some(current) = search.current else {
            return None;
        };
        let row: usize = search.hits[current];
        let (starts, sizes) = rows_of(self.editor.as_str());
        let lines = split_lines(self.editor.as_str());
        let len: usize = byte_len(self.editor.as_str());
        let start: usize = if row < starts.len() {
            starts[row]
        } else {
            len
        };
        let line: String = if row < lines.len() {
            lines[row].clone()
        } else {
            String::new()
        };
        let at = place_in_row(line.as_str(), search.needle.as_str());
        let from: usize = start.saturating_add(
            match at {
                Some(at) => at,
                None => 0,
            },
        );
        let more: usize = if at.is_some() {
            byte_len(search.needle.as_str())
        } else {
            0
        };
        let to: usize = from.saturating_add(more);
        let end: usize = if to < len {
            to
        } else {
            len
        };
        proof {
            let place: Option<nat> = match at {
                Some(at) => Some(at as nat),
                None => None,
            };
            let sought = self@.search->0;
            let at_row = sought.hits[sought.current->0 as int] as int;
            assert(at_row == row);
            assert(line@ == row_of(self@.editor, at_row));
            assert(stands_in_row(row_of(self@.editor, at_row), sought.needle, place));
            assert(from == selection(self@.editor, at_row, sought.needle, place).0);
            assert(end == selection(self@.editor, at_row, sought.needle, place).1);
        }
        Some((from, end))
    }

    /// The tints over the editor's text: the lines the last reload changed, and the find's hits.
    pub fn marks(&self) -> (r: Vec<Mark>)
        ensures
            r@ == marks_of(self@.editor, self@.changed, Tint::Changed) + match self@.search {
                Some(search) => marks_of(self@.editor, search.hits, Tint::Hit),
                None => Seq::empty(),
            },
    {
        let (starts, sizes) = rows_of(self.editor.as_str());
        let mut out: Vec<Mark> = Vec::new();
        add_marks(
            &mut out,
            self.changed.as_slice(),
            Tint::Changed,
            &starts,
            &sizes,
            Ghost(self.editor@),
        );
        if let Some(search) = &self.search {
            add_marks(
                &mut out,
                search.hits.as_slice(),
                Tint::Hit,
                &starts,
                &sizes,
                Ghost(self.editor@),
            );
        }
        out
    }

    /// The text that waits for the editor, which then holds it, and whether the reader stays
    /// where they were: a silent reload keeps their place.
    pub fn take_text(&mut self) -> (r: Option<(String, bool)>)
        ensures
            final(self)@ == old(self)@.then_text_taken().0,
            match r {
                Some((text, stay)) => old(self)@.then_text_taken().1 == Some((text@, stay)),
                None => old(self)@.then_text_taken().1 is None,
            },
            match r {
                Some((text, stay)) => old(self)@.pending_text == Some(text@) && stay == (old(
                    self,
                )@.pending_line is None) && final(self)@ == (Tile {
                    editor: text@,
                    pending_text: None,
                    ..old(self)@
                }),
                None => old(self)@.pending_text is None && final(self)@ == old(self)@,
            },
    {
        proof {
            use_type_invariant(&*self);
        }
        let mut waiting: Option<String> = None;
        std::mem::swap(&mut waiting, &mut self.pending_text);
        match waiting {
            Some(text) => {
                self.editor = text.clone();
                Some((text, self.pending_line.is_none()))
            },
            None => None,
        }
    }

    /// The editor took the text that waited, with its caret on the line `caret`.
    pub fn text_placed(&mut self, caret: usize)
        ensures
            final(self)@ == (Tile { caret, ..old(self)@ }).then_refresh(),
    {
        proof {
            use_type_invariant(&*self);
        }
        self.caret = caret;
        self.refresh_hits();
    }

    /// The line that waits for the caret, the text's last at most, where the caret then is.
    pub fn take_line(&mut self) -> (r: Option<usize>)
        ensures
            (final(self)@, r) == old(self)@.then_line_shown(),
            match old(self)@.pending_line {
                Some(line) => {
                    let last = (pieces(old(self)@.editor, '\n').len() - 1) as usize;
                    let shown = if line < last {
                        line
                    } else {
                        last
                    };
                    r == Some(shown) && final(self)@ == (Tile {
                        caret: shown,
                        pending_line: None,
                        ..old(self)@
                    })
                },
                None => r is None && final(self)@ == old(self)@,
            },
    {
        proof {
            use_type_invariant(&*self);
        }
        let waiting: Option<usize> = self.pending_line;
        self.pending_line = None;
        match waiting {
            Some(line) => {
                let (starts, _) = rows_of(self.editor.as_str());
                proof {
                    lemma_pieces(self.editor@, '\n');
                }
                let last: usize = starts.len() - 1;
                let shown: usize = if line < last {
                    line
                } else {
                    last
                };
                self.caret = shown;
                Some(shown)
            },
            None => None,
        }
    }
}

/// `text` behind a comma, where there is one.
pub open spec fn and_then_said(text: Option<Seq<char>>) -> Seq<char> {
    match text {
        Some(text) => ", "@ + text,
        None => Seq::empty(),
    }
}

impl Tile {
    /// What is being done with the text, where anything is.
    pub open spec fn doing(self) -> Option<Seq<char>> {
        if self.read_only is Some {
            Some("read-only"@)
        } else if self.saving is Some {
            Some("saving"@)
        } else if self.dirty {
            Some("edited"@)
        } else {
            None
        }
    }

    /// What went wrong, where anything did.
    pub open spec fn wrong(self) -> Option<Seq<char>> {
        match self.trouble {
            Some(Stop::Conflict) => Some("changed on disk"@),
            Some(Stop::Failed(_)) => Some("not saved"@),
            None => None,
        }
    }

    /// One line about the file.
    pub open spec fn summary(self) -> Seq<char> {
        match self.read {
            None => "reading…"@,
            Some(Read::Text { .. }) => {
                let n = pieces(self.text(), '\n').len();
                (if n == 1 {
                    "1 line"@
                } else {
                    decimal(n) + " lines"@
                }) + and_then_said(self.syntax) + and_then_said(self.doing()) + and_then_said(
                    self.wrong(),
                ) + and_then_said(
                    if self.changed.len() > 0 {
                        Some(decimal(self.changed.len()) + " changed"@)
                    } else {
                        None
                    },
                )
            },
            Some(Read::Binary { size }) => "binary, "@ + size_text(size as nat),
            Some(Read::Missing { error }) => "missing: "@ + error,
        }
    }

    /// How many hits the find has, and which one it is on.
    pub open spec fn count(self) -> Seq<char> {
        match self.search {
            None => Seq::empty(),
            Some(search) => if search.needle.len() == 0 {
                Seq::empty()
            } else if search.hits.len() == 0 {
                "none"@
            } else {
                decimal(
                    match search.current {
                        Some(at) => at as nat + 1,
                        None => 0,
                    },
                ) + "/"@ + decimal(search.hits.len())
            },
        }
    }

    /// What the line under the header says, and in which tone; none when all is well.
    pub open spec fn bar(self) -> Option<(Seq<char>, Tone)> {
        match self.trouble {
            Some(Stop::Conflict) => Some(("Changed on disk"@, Tone::Warn)),
            Some(Stop::Failed(error)) => Some(("Not saved: "@ + error, Tone::Error)),
            None => match self.read_only {
                Some(why) => Some((why, Tone::Muted)),
                None => None,
            },
        }
    }
}

/// How loudly something is said.
#[derive(Clone, Copy, PartialEq, Eq, Structural, Debug)]
pub enum Tone {
    /// Something is to be settled.
    Warn,
    /// Something went wrong.
    Error,
    /// A remark.
    Muted,
}

/// A way out that the bar offers.
#[derive(Clone, Copy, PartialEq, Eq, Structural, Debug)]
pub enum WayOut {
    /// Drop the edit for the disk's text.
    Reload,
    /// Write the edit over the disk's text.
    Overwrite,
}

impl WayOut {
    /// What its button says.
    pub fn label(self) -> (r: &'static str)
        ensures
            r@ == match self {
                WayOut::Reload => "Reload"@,
                WayOut::Overwrite => "Overwrite"@,
            },
    {
        match self {
            WayOut::Reload => "Reload",
            WayOut::Overwrite => "Overwrite",
        }
    }

    /// What its button is called.
    pub fn part(self) -> (r: &'static str)
        ensures
            r@ == match self {
                WayOut::Reload => "file-reload"@,
                WayOut::Overwrite => "file-overwrite"@,
            },
    {
        match self {
            WayOut::Reload => "file-reload",
            WayOut::Overwrite => "file-overwrite",
        }
    }
}

/// The one line under the header.
#[derive(Debug)]
pub struct Bar {
    /// What it says.
    pub text: String,
    /// How loudly.
    pub tone: Tone,
    /// The ways out it offers.
    pub ways: Vec<WayOut>,
}

/// What stands in the tile's body.
#[derive(Debug)]
pub enum Body {
    /// A word about the file.
    Notice(String),
    /// The editor, in which the text can be changed or not.
    Editor {
        /// What a screen reader says of it.
        label: String,
        /// The text cannot be changed.
        readonly: bool,
    },
}

/// Everything a file tile shows.
#[derive(Debug)]
pub struct FileFace {
    /// What a screen reader says of the tile.
    pub label: String,
    /// One line about the file.
    pub value: String,
    /// The line under the header.
    pub bar: Option<Bar>,
    /// The body.
    pub body: Body,
    /// The count in the find bar, while it is open.
    pub count: Option<String>,
}

/// What the bar in `o` says.
pub open spec fn bar_in(o: Option<Bar>) -> Option<(Seq<char>, Tone)> {
    match o {
        Some(bar) => Some((bar.text@, bar.tone)),
        None => None,
    }
}

/// Adds `text` behind a comma to the end of `out`.
fn also(out: &mut String, text: &str)
    ensures
        final(out)@ == old(out)@ + (", "@ + text@),
{
    out.append(", ");
    out.append(text);
    assert(out@ == old(out)@ + (", "@ + text@));
}

impl<'a> FileView<'a> {
    /// One line about the file for a screen reader: "212 lines, edited", "binary, 1.2 MB",
    /// "missing: No such file".
    pub fn summary(&self) -> (r: String)
        ensures
            r@ == self@.summary(),
    {
        match &self.read {
            None => String::from_str("reading…"),
            Some(FileRead::Text { .. }) => {
                let n: usize = self.line_count();
                let mut out = String::new();
                if n == 1 {
                    out.append("1 line");
                } else {
                    push_decimal(&mut out, n as u128);
                    out.append(" lines");
                }
                let ghost said = out@;
                if let Some(name) = self.coloured_as() {
                    also(&mut out, name);
                }
                assert(out@ == said + and_then_said(self@.syntax));
                let ghost said = out@;
                if self.read_only.is_some() {
                    also(&mut out, "read-only");
                } else if self.saving.is_some() {
                    also(&mut out, "saving");
                } else if self.dirty {
                    also(&mut out, "edited");
                }
                assert(out@ == said + and_then_said(self@.doing()));
                let ghost said = out@;
                match &self.trouble {
                    Some(Trouble::Conflict) => also(&mut out, "changed on disk"),
                    Some(Trouble::Failed(_)) => also(&mut out, "not saved"),
                    None => {},
                }
                assert(out@ == said + and_then_said(self@.wrong()));
                let ghost said = out@;
                if self.changed.len() > 0 {
                    let mut more = String::new();
                    push_decimal(&mut more, self.changed.len() as u128);
                    more.append(" changed");
                    assert(more@ == decimal(self@.changed.len()) + " changed"@);
                    also(&mut out, more.as_str());
                }
                out
            },
            Some(FileRead::Binary { size }) => {
                let mut out = String::from_str("binary, ");
                out.append(size_label(*size).as_str());
                out
            },
            Some(FileRead::Missing { error }) => {
                let mut out = String::from_str("missing: ");
                out.append(error.as_str());
                out
            },
        }
    }

    /// How many hits the find has and which one it is on: "2/5", "none", nothing without a
    /// needle.
    pub fn search_count(&self) -> (r: String)
        ensures
            r@ == self@.count(),
    {
        proof {
            use_type_invariant(self);
        }
        let mut out = String::new();
        if let Some(search) = &self.search {
            if search.needle.as_str().is_empty() {
                return out;
            }
            if search.hits.len() == 0 {
                out.append("none");
                return out;
            }
            let at: usize = match search.current {
                Some(at) => at + 1,
                None => 0,
            };
            push_decimal(&mut out, at as u128);
            out.append("/");
            push_decimal(&mut out, search.hits.len() as u128);
            assert(out@ == self@.count());
        }
        out
    }

    /// The one line under the header: why the text is read-only, or what stopped a save and the
    /// ways out. None when all is well.
    pub fn bar(&self) -> (r: Option<Bar>)
        ensures
            bar_in(r) == self@.bar(),
            r matches Some(bar) ==> bar.ways@ == if self@.trouble == Some(Stop::Conflict) {
                seq![WayOut::Reload, WayOut::Overwrite]
            } else {
                Seq::empty()
            },
    {
        match &self.trouble {
            Some(Trouble::Conflict) => {
                let mut ways: Vec<WayOut> = Vec::new();
                ways.push(WayOut::Reload);
                ways.push(WayOut::Overwrite);
                assert(ways@ == seq![WayOut::Reload, WayOut::Overwrite]);
                Some(Bar { text: String::from_str("Changed on disk"), tone: Tone::Warn, ways })
            },
            Some(Trouble::Failed(error)) => {
                let mut text = String::from_str("Not saved: ");
                text.append(error.as_str());
                Some(Bar { text, tone: Tone::Error, ways: Vec::new() })
            },
            None => match &self.read_only {
                Some(why) => Some(Bar { text: why.clone(), tone: Tone::Muted, ways: Vec::new() }),
                None => None,
            },
        }
    }

    /// Everything the tile shows: the editor once there was a text, a word about the file until
    /// then.
    pub fn face(&self) -> (r: FileFace)
        ensures
            match self@.notice() {
                Some(said) => r.body matches Body::Notice(text) && text@ == said,
                None => r.body is Editor,
            },
            r.label@ == "File "@ + self@.path,
            r.value@ == self@.summary(),
            bar_in(r.bar) == self@.bar(),
            r.bar matches Some(bar) ==> bar.ways@ == if self@.trouble == Some(Stop::Conflict) {
                seq![WayOut::Reload, WayOut::Overwrite]
            } else {
                Seq::empty()
            },
            r.count is Some == self@.search is Some,
            r.count matches Some(count) ==> count@ == self@.count(),
            match self@.read {
                None => r.body matches Body::Notice(text) && text@ == "reading…"@,
                Some(read) => if !(read is Text) && self@.base is None {
                    r.body matches Body::Notice(text) && text@ == self@.summary()
                } else {
                    r.body matches Body::Editor { label, readonly } && label@ == "Text of "@
                        + self@.path && readonly == self@.read_only is Some
                },
            },
    {
        proof {
            use_type_invariant(self);
        }
        let mut label = String::from_str("File ");
        label.append(self.path.as_str());
        let value = self.summary();
        let body = match &self.read {
            None => Body::Notice(String::from_str("reading…")),
            Some(read) => {
                let is_text: bool = match read {
                    FileRead::Text { .. } => true,
                    _ => false,
                };
                if !is_text && self.base.is_none() {
                    Body::Notice(self.summary())
                } else {
                    let mut of = String::from_str("Text of ");
                    of.append(self.path.as_str());
                    Body::Editor { label: of, readonly: self.read_only.is_some() }
                }
            },
        };
        let count = if self.search.is_some() {
            Some(self.search_count())
        } else {
            None
        };
        FileFace { label, value, bar: self.bar(), body, count }
    }
}

/// A change on disk never takes an edit away: under an edit that was not given up, whatever the
/// worker reads, the text stays.
pub proof fn law_an_edit_is_kept(tile: Tile, read: Read)
    requires
        tile.dirty,
        !tile.discard,
    ensures
        tile.then_read(read).text() == tile.text(),
        tile.then_read(read).editor == tile.editor,
{
}

/// A change on disk under an edit is a conflict, unless the disk has what the tile has or sent,
/// or still what the edit started from.
pub proof fn law_a_change_under_an_edit_is_a_conflict(
    tile: Tile,
    text: Seq<char>,
    more_lines: u32,
    size: u64,
    modified_ms: u64,
    final_newline: bool,
)
    requires
        tile.dirty,
        !tile.discard,
        text != tile.text(),
        tile.saving matches Some(sent) ==> sent.text != text,
        tile.base matches Some(base) ==> base.text != text || modified_ms > base.modified_ms,
    ensures
        tile.then_read(
            Read::Text { text, more_lines, size, modified_ms, final_newline },
        ).trouble == Some(Stop::Conflict),
{
}

/// Nothing is sent to be written while a conflict waits, but by an overwrite.
pub proof fn law_a_conflict_stops_a_save(tile: Tile)
    requires
        tile.trouble == Some(Stop::Conflict),
    ensures
        tile.then_save() == (tile, None::<Asked>),
{
}

/// A clipped file is never written, and neither is a second save sent while one is out.
pub proof fn law_a_clipped_file_is_never_written(tile: Tile)
    requires
        tile.read_only is Some || tile.saving is Some,
    ensures
        tile.then_save() == (tile, None::<Asked>),
        tile.then_overwrite() == (tile, None::<Asked>),
{
}

/// What a save sends is the whole text, with the newline the file ended with, on top of the
/// version the edit started from.
pub proof fn law_a_save_sends_the_whole_text(tile: Tile)
    requires
        tile.then_save().1 is Some,
    ensures
        tile.base is Some,
        tile.then_save().1 == Some(
            Asked::Save {
                text: on_disk(tile.text(), tile.base->0.newline),
                base_modified_ms: Some(tile.base->0.modified_ms),
            },
        ),
        tile.then_save().0.text() == tile.text(),
{
}

/// A save that was written leaves the tile clean and settled where nothing was typed meanwhile.
pub proof fn law_a_written_save_is_clean(tile: Tile, size: u64, modified_ms: u64)
    requires
        tile.then_save().1 is Some,
    ensures
        ({
            let next = tile.then_save().0.then_written(Written::Saved { size, modified_ms });
            &&& !next.dirty
            &&& next.saving is None
            &&& next.trouble is None
            &&& next.text() == tile.text()
            &&& next.base == Some(
                Text { text: tile.text(), newline: tile.base->0.newline, modified_ms },
            )
        }),
{
}

/// The watch's echo of a save changes nothing but what the worker last said.
pub proof fn law_the_echo_of_a_save_changes_nothing(
    tile: Tile,
    size: u64,
    modified_ms: u64,
)
    requires
        tile.then_save().1 is Some,
        tile.then_save().0.then_written(Written::Saved { size, modified_ms }).read_only is None,
        !tile.discard,
        size <= FILE_BYTES,
    ensures
        ({
            let saved = tile.then_save().0.then_written(Written::Saved { size, modified_ms });
            let echo = Read::Text {
                text: tile.text(),
                more_lines: 0,
                size,
                modified_ms,
                final_newline: tile.base->0.newline,
            };
            saved.then_read(echo) == Tile { read: Some(echo), ..saved }
        }),
{
}

/// A reload drops the edit for the disk's text.
pub proof fn law_a_reload_takes_the_disks_text(
    tile: Tile,
    text: Seq<char>,
    more_lines: u32,
    size: u64,
    modified_ms: u64,
    final_newline: bool,
)
    ensures
        ({
            let next = tile.then_reload().0.then_read(
                Read::Text { text, more_lines, size, modified_ms, final_newline },
            );
            next.text() == text && !next.dirty && next.trouble is None && !next.discard
                && next.changed.len() == 0
        }),
{
}

/// A clean tile takes a change on disk without a word, and says which lines changed.
pub proof fn law_a_clean_tile_takes_a_change(
    tile: Tile,
    text: Seq<char>,
    more_lines: u32,
    size: u64,
    modified_ms: u64,
    final_newline: bool,
)
    requires
        !tile.dirty,
        !tile.discard,
        tile.base matches Some(base) && base.text != text,
    ensures
        ({
            let next = tile.then_read(
                Read::Text { text, more_lines, size, modified_ms, final_newline },
            );
            &&& next.text() == text
            &&& !next.dirty
            &&& next.trouble is None
            &&& next.changed == changed_of(tile.base->0.text, text)
        }),
{
}

/// An overwrite goes over whatever the disk has, and settles a conflict.
pub proof fn law_an_overwrite_settles_a_conflict(tile: Tile)
    requires
        tile.read_only is None,
        tile.saving is None,
    ensures
        tile.then_overwrite().0.trouble is None,
        tile.then_overwrite().1 matches Some(Asked::Save { base_modified_ms, .. })
            && base_modified_ms is None,
{
}

/// Why a save failed is said until the next keystroke; a conflict is said until it is settled.
pub proof fn law_a_keystroke_clears_a_failure(tile: Tile, text: Seq<char>, caret: usize)
    ensures
        !(tile.then_edited(text, caret).trouble matches Some(Stop::Failed(_))),
        tile.trouble == Some(Stop::Conflict) ==> tile.then_edited(text, caret).trouble == Some(
            Stop::Conflict,
        ),
{
}

/// A step forward and a step back lead to the same hit.
pub proof fn law_a_step_back_undoes_a_step(tile: Tile)
    requires
        tile.search matches Some(search) && search.current matches Some(at) && at
            < search.hits.len() <= i64::MAX && search.hits.len() <= usize::MAX,
    ensures
        tile.then_step(1).then_step(-1i64 as i64) == tile,
        tile.then_step(-1i64 as i64).then_step(1) == tile,
{
    let search = tile.search->0;
    let (n, at) = (search.hits.len() as int, search.current->0 as int);
    let next = (at + 1) % n;
    let back = (at - 1) % n;
    assert(next == if at + 1 == n {
        0
    } else {
        at + 1
    }) by {
        if at + 1 == n {
            vstd::arithmetic::div_mod::lemma_mod_self_0(n);
        } else {
            vstd::arithmetic::div_mod::lemma_small_mod((at + 1) as nat, n as nat);
        }
    }
    assert(back == if at == 0 {
        n - 1
    } else {
        at - 1
    }) by {
        if at == 0 {
            vstd::arithmetic::div_mod::lemma_fundamental_div_mod_converse(-1, n, -1, n - 1);
        } else {
            vstd::arithmetic::div_mod::lemma_small_mod((at - 1) as nat, n as nat);
        }
    }
    assert((next - 1) % n == at) by {
        if next == 0 {
            vstd::arithmetic::div_mod::lemma_fundamental_div_mod_converse(-1, n, -1, n - 1);
        } else {
            vstd::arithmetic::div_mod::lemma_small_mod(at as nat, n as nat);
        }
    }
    assert((back + 1) % n == at) by {
        if at == 0 {
            vstd::arithmetic::div_mod::lemma_mod_self_0(n);
        } else {
            vstd::arithmetic::div_mod::lemma_small_mod(at as nat, n as nat);
        }
    }
}

impl Tile {
    /// A tile without an edit holds the text it was last in step with.
    pub open spec fn in_step(self) -> bool {
        !self.dirty && self.base is Some ==> self.text() == self.base->0.text
    }
}

/// A clean tile holds the text it was last in step with, and everything that can happen to a tile
/// keeps it so. (A keystroke is told only once the text that
/// waits is in the editor.)
pub proof fn law_a_clean_tile_holds_its_bases_text(
    tile: Tile,
    typed: Seq<char>,
    caret: usize,
    read: Read,
    result: Written,
    needle: Seq<char>,
    delta: i64,
)
    requires
        tile.in_step(),
    ensures
        tile.pending_text is None ==> tile.then_edited(typed, caret).in_step(),
        tile.then_read(read).in_step(),
        tile.then_written(result).in_step(),
        tile.then_save().0.in_step(),
        tile.then_overwrite().0.in_step(),
        tile.then_reload().0.in_step(),
        tile.then_find().in_step(),
        tile.then_needle(needle).in_step(),
        tile.then_step(delta).in_step(),
        (Tile { editor: tile.text(), pending_text: None, ..tile }).in_step(),
{
}

} // verus!
