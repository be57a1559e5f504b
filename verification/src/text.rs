//! Text as sequences of characters: white space, trimming, lines, and the way back to a string.
use vstd::prelude::*;

verus! {

/// Appending one character to a string: `String::push` adds it at the end and changes nothing
/// else.
pub assume_specification[ std::string::String::push ](s: &mut std::string::String, c: char)
    ensures
        final(s)@ == old(s)@.push(c),
;

/// The characters with Unicode's `White_Space` property.
pub open spec fn is_white(c: char) -> bool {
    let n = c as u32;
    ||| 0x9 <= n <= 0xd
    ||| n == 0x20
    ||| n == 0x85
    ||| n == 0xa0
    ||| n == 0x1680
    ||| 0x2000 <= n <= 0x200a
    ||| n == 0x2028
    ||| n == 0x2029
    ||| n == 0x202f
    ||| n == 0x205f
    ||| n == 0x3000
}

/// Whether `c` is white space.
pub fn is_whitespace(c: char) -> (r: bool)
    ensures
        r == is_white(c),
{
    let n: u32 = c as u32;
    (0x9 <= n && n <= 0xd) || n == 0x20 || n == 0x85 || n == 0xa0 || n == 0x1680 || (0x2000 <= n
        && n <= 0x200a) || n == 0x2028 || n == 0x2029 || n == 0x202f || n == 0x205f || n == 0x3000
}

/// How many white characters `s` starts with.
pub open spec fn lead(s: Seq<char>) -> nat
    decreases s.len(),
{
    if s.len() > 0 && is_white(s[0]) {
        1 + lead(s.drop_first())
    } else {
        0
    }
}

/// How many white characters `s` ends with.
pub open spec fn trail(s: Seq<char>) -> nat
    decreases s.len(),
{
    if s.len() > 0 && is_white(s.last()) {
        1 + trail(s.drop_last())
    } else {
        0
    }
}

/// `s` without the white space it starts with.
pub open spec fn trim_start(s: Seq<char>) -> Seq<char> {
    s.skip(lead(s) as int)
}

/// `s` without the white space it ends with.
pub open spec fn trim_end(s: Seq<char>) -> Seq<char> {
    s.take(s.len() - trail(s))
}

/// `s` without white space at either end.
pub open spec fn trim(s: Seq<char>) -> Seq<char> {
    trim_end(trim_start(s))
}

/// `lead` counts a run of white characters that a character of another kind, or the end,
/// follows.
pub proof fn lemma_lead(s: Seq<char>)
    ensures
        lead(s) <= s.len(),
        forall|i: int| 0 <= i < lead(s) ==> is_white(#[trigger] s[i]),
        lead(s) < s.len() ==> !is_white(s[lead(s) as int]),
    decreases s.len(),
{
    if s.len() > 0 && is_white(s[0]) {
        lemma_lead(s.drop_first());
        assert forall|i: int| 0 <= i < lead(s) implies is_white(#[trigger] s[i]) by {
            if i > 0 {
                assert(s.drop_first()[i - 1] == s[i]);
            }
        }
    }
}

/// A run of `n` white characters with something else behind it is what `lead` counts.
pub proof fn lemma_lead_is(s: Seq<char>, n: nat)
    requires
        n <= s.len(),
        forall|i: int| 0 <= i < n ==> is_white(#[trigger] s[i]),
        n < s.len() ==> !is_white(s[n as int]),
    ensures
        lead(s) == n,
    decreases n,
{
    if n > 0 {
        let t = s.drop_first();
        assert forall|i: int| 0 <= i < n - 1 implies is_white(#[trigger] t[i]) by {
            assert(t[i] == s[i + 1]);
        }
        lemma_lead_is(t, (n - 1) as nat);
    }
}

/// `trail` counts a run of white characters before which another character, or the start,
/// stands.
pub proof fn lemma_trail(s: Seq<char>)
    ensures
        trail(s) <= s.len(),
        forall|i: int| s.len() - trail(s) <= i < s.len() ==> is_white(#[trigger] s[i]),
        trail(s) < s.len() ==> !is_white(s[s.len() - trail(s) - 1]),
    decreases s.len(),
{
    if s.len() > 0 && is_white(s.last()) {
        lemma_trail(s.drop_last());
        assert forall|i: int| s.len() - trail(s) <= i < s.len() implies is_white(
            #[trigger] s[i],
        ) by {
            if i < s.len() - 1 {
                assert(s.drop_last()[i] == s[i]);
            }
        }
    }
}

/// A run of `n` white characters with something else before it is what `trail` counts.
pub proof fn lemma_trail_is(s: Seq<char>, n: nat)
    requires
        n <= s.len(),
        forall|i: int| s.len() - n <= i < s.len() ==> is_white(#[trigger] s[i]),
        n < s.len() ==> !is_white(s[s.len() - n - 1]),
    ensures
        trail(s) == n,
    decreases n,
{
    if n > 0 {
        let t = s.drop_last();
        assert forall|i: int| t.len() - (n - 1) <= i < t.len() implies is_white(
            #[trigger] t[i],
        ) by {
            assert(t[i] == s[i]);
        }
        lemma_trail_is(t, (n - 1) as nat);
    }
}

/// The characters of `s`.
pub fn chars_of(s: &str) -> (r: Vec<char>)
    ensures
        r@ == s@,
{
    let mut r: Vec<char> = Vec::new();
    for c in it: s.chars()
        invariant
            it.seq() == s@,
            r@ == s@.take(it.index() as int),
    {
        proof {
            assert(s@.take(it.index() + 1) == s@.take(it.index() as int).push(c));
        }
        r.push(c);
    }
    assert(s@.take(s@.len() as int) == s@);
    r
}

/// The string of the characters `s`.
pub fn string_of(s: &[char]) -> (r: String)
    ensures
        r@ == s@,
{
    let mut r: String = String::new();
    let mut i: usize = 0;
    while i < s.len()
        invariant
            i <= s.len(),
            r@ == s@.take(i as int),
        decreases s.len() - i,
    {
        r.push(s[i]);
        assert(s@.take(i + 1) == s@.take(i as int).push(s@[i as int]));
        i += 1;
    }
    assert(s@.take(s@.len() as int) == s@);
    r
}

/// The part of `s` from `from` to `to`.
pub fn part(s: &[char], from: usize, to: usize) -> (r: &[char])
    requires
        from <= to <= s@.len(),
    ensures
        r@ == s@.subrange(from as int, to as int),
{
    vstd::slice::slice_subrange(s, from, to)
}

/// How many white characters `s` starts with.
pub fn lead_of(s: &[char]) -> (r: usize)
    ensures
        r == lead(s@),
        r <= s@.len(),
{
    let mut i: usize = 0;
    while i < s.len() && is_whitespace(s[i])
        invariant
            i <= s.len(),
            forall|k: int| 0 <= k < i ==> is_white(#[trigger] s@[k]),
        decreases s.len() - i,
    {
        i += 1;
    }
    proof {
        lemma_lead_is(s@, i as nat);
    }
    i
}

/// `s` without the white space it starts with.
pub fn trimmed_start(s: &[char]) -> (r: &[char])
    ensures
        r@ == trim_start(s@),
{
    let at: usize = lead_of(s);
    part(s, at, s.len())
}

/// `s` without the white space it ends with.
pub fn trimmed_end(s: &[char]) -> (r: &[char])
    ensures
        r@ == trim_end(s@),
{
    let mut n: usize = s.len();
    while n > 0 && is_whitespace(s[n - 1])
        invariant
            n <= s.len(),
            forall|k: int| n <= k < s.len() ==> is_white(#[trigger] s@[k]),
        decreases n,
    {
        n -= 1;
    }
    proof {
        lemma_trail_is(s@, (s@.len() - n) as nat);
    }
    part(s, 0, n)
}

/// `s` without white space at either end.
pub fn trimmed(s: &[char]) -> (r: &[char])
    ensures
        r@ == trim(s@),
{
    trimmed_end(trimmed_start(s))
}

/// Whether `s` starts with `prefix`.
pub open spec fn starts_with(s: Seq<char>, prefix: Seq<char>) -> bool {
    prefix.len() <= s.len() && s.take(prefix.len() as int) == prefix
}

/// Whether `s` starts with `prefix`.
pub fn has_prefix(s: &[char], prefix: &[char]) -> (r: bool)
    ensures
        r == starts_with(s@, prefix@),
{
    if s.len() < prefix.len() {
        return false;
    }
    let mut i: usize = 0;
    while i < prefix.len()
        invariant
            i <= prefix.len() <= s.len(),
            forall|k: int| 0 <= k < i ==> s@[k] == prefix@[k],
        decreases prefix.len() - i,
    {
        if s[i] != prefix[i] {
            assert(s@.take(prefix@.len() as int)[i as int] == s@[i as int]);
            return false;
        }
        i += 1;
    }
    assert(s@.take(prefix@.len() as int) == prefix@);
    true
}

/// Whether the two texts are the same.
pub fn same(a: &[char], b: &[char]) -> (r: bool)
    ensures
        r == (a@ == b@),
{
    if a.len() != b.len() {
        return false;
    }
    let mut i: usize = 0;
    while i < a.len()
        invariant
            i <= a.len() == b.len(),
            forall|k: int| 0 <= k < i ==> a@[k] == b@[k],
        decreases a.len() - i,
    {
        if a[i] != b[i] {
            return false;
        }
        i += 1;
    }
    assert(a@ == b@);
    true
}

/// `s` cut at each `sep`, the separators left out: one piece more than there are separators.
pub open spec fn pieces(s: Seq<char>, sep: char) -> Seq<Seq<char>>
    decreases s.len(),
{
    if s.len() == 0 {
        seq![Seq::empty()]
    } else {
        let before = pieces(s.drop_last(), sep);
        if s.last() == sep {
            before.push(Seq::empty())
        } else {
            before.drop_last().push(before.last().push(s.last()))
        }
    }
}

/// The texts of `parts` with `sep` between each and the next.
pub open spec fn joined(parts: Seq<Seq<char>>, sep: char) -> Seq<char>
    decreases parts.len(),
{
    if parts.len() == 0 {
        Seq::empty()
    } else if parts.len() == 1 {
        parts[0]
    } else {
        joined(parts.drop_last(), sep).push(sep) + parts.last()
    }
}

/// There is always a piece, and no piece holds the separator.
pub proof fn lemma_pieces(s: Seq<char>, sep: char)
    ensures
        pieces(s, sep).len() >= 1,
        pieces(s, sep).len() <= s.len() + 1,
        forall|i: int| 0 <= i < pieces(s, sep).len() ==> !(#[trigger] pieces(s, sep)[i]).contains(sep),
    decreases s.len(),
{
    if s.len() > 0 {
        lemma_pieces(s.drop_last(), sep);
        let before = pieces(s.drop_last(), sep);
        assert forall|i: int| 0 <= i < pieces(s, sep).len() implies !(#[trigger] pieces(
            s,
            sep,
        )[i]).contains(sep) by {
            let p = pieces(s, sep)[i];
            if s.last() != sep && i == before.len() - 1 {
                assert(!before[i].contains(sep));
                assert forall|k: int| 0 <= k < p.len() implies p[k] != sep by {
                    if k < before[i].len() {
                        assert(before[i].contains(before[i][k]));
                    }
                }
            } else if i < before.len() {
                assert(p == before[i]);
            }
        }
    }
}

/// Joining the pieces of a text gives the text back.
pub proof fn lemma_join_pieces(s: Seq<char>, sep: char)
    ensures
        joined(pieces(s, sep), sep) == s,
    decreases s.len(),
{
    if s.len() > 0 {
        let t = s.drop_last();
        lemma_join_pieces(t, sep);
        lemma_pieces(t, sep);
        let before = pieces(t, sep);
        let now = pieces(s, sep);
        if s.last() == sep {
            assert(now.drop_last() == before);
            assert(now.last() == Seq::<char>::empty());
            assert(joined(now, sep) == s);
        } else {
            assert(now.drop_last() == before.drop_last());
            assert(now.last() == before.last().push(s.last()));
            assert(joined(now, sep) == joined(before, sep).push(s.last()));
        }
    }
}

/// A text without the separator is one piece.
pub proof fn lemma_pieces_of_one(s: Seq<char>, sep: char)
    requires
        !s.contains(sep),
    ensures
        pieces(s, sep) == seq![s],
    decreases s.len(),
{
    if s.len() > 0 {
        let t = s.drop_last();
        assert(!t.contains(sep)) by {
            if t.contains(sep) {
                let k = choose|k: int| 0 <= k < t.len() && t[k] == sep;
                assert(s[k] == sep);
            }
        }
        assert(s[s.len() - 1] != sep);
        lemma_pieces_of_one(t, sep);
        assert(t.push(s.last()) == s);
    } else {
        assert(s == Seq::<char>::empty());
    }
}

/// A separator and a text without one add one piece at the end.
pub proof fn lemma_pieces_append(a: Seq<char>, b: Seq<char>, sep: char)
    requires
        !b.contains(sep),
    ensures
        pieces(a.push(sep) + b, sep) == pieces(a, sep).push(b),
    decreases b.len(),
{
    let s = a.push(sep) + b;
    if b.len() == 0 {
        assert(s == a.push(sep));
        assert(s.drop_last() == a);
        assert(b == Seq::<char>::empty());
    } else {
        let c = b.drop_last();
        assert(!c.contains(sep)) by {
            if c.contains(sep) {
                let k = choose|k: int| 0 <= k < c.len() && c[k] == sep;
                assert(b[k] == sep);
            }
        }
        assert(b[b.len() - 1] != sep);
        lemma_pieces_append(a, c, sep);
        assert(s.drop_last() == a.push(sep) + c);
        assert(c.push(b.last()) == b);
        assert(pieces(s, sep) == pieces(a, sep).push(c).drop_last().push(c.push(b.last())));
        assert(pieces(a, sep).push(c).drop_last() == pieces(a, sep));
    }
}

/// Pieces that hold no separator are found again in their join.
pub proof fn lemma_pieces_of_join(parts: Seq<Seq<char>>, sep: char)
    requires
        parts.len() >= 1,
        forall|i: int| 0 <= i < parts.len() ==> !(#[trigger] parts[i]).contains(sep),
    ensures
        pieces(joined(parts, sep), sep) == parts,
    decreases parts.len(),
{
    if parts.len() == 1 {
        lemma_pieces_of_one(parts[0], sep);
        assert(parts == seq![parts[0]]);
    } else {
        let init = parts.drop_last();
        assert forall|i: int| 0 <= i < init.len() implies !(#[trigger] init[i]).contains(sep) by {
            assert(init[i] == parts[i]);
        }
        lemma_pieces_of_join(init, sep);
        lemma_pieces_append(joined(init, sep), parts.last(), sep);
        assert(init.push(parts.last()) == parts);
    }
}

/// What stands between the separators of `s`, as positions: each piece runs from its start to
/// its end.
pub open spec fn spans_pieces(spans: Seq<(usize, usize)>, s: Seq<char>, sep: char) -> bool {
    &&& spans.len() == pieces(s, sep).len()
    &&& forall|i: int|
        0 <= i < spans.len() ==> {
            &&& (#[trigger] spans[i]).0 <= spans[i].1 <= s.len()
            &&& s.subrange(spans[i].0 as int, spans[i].1 as int) == pieces(s, sep)[i]
        }
}

/// The pieces of `s` between separators, as positions in `s`.
pub fn piece_spans(s: &[char], sep: char) -> (r: Vec<(usize, usize)>)
    ensures
        spans_pieces(r@, s@, sep),
{
    let mut r: Vec<(usize, usize)> = Vec::new();
    let mut start: usize = 0;
    let mut i: usize = 0;
    proof {
        assert(s@.take(0) == Seq::<char>::empty());
        assert(s@.subrange(0, 0) == Seq::<char>::empty());
    }
    while i < s.len()
        invariant
            start <= i <= s.len(),
            pieces(s@.take(i as int), sep).len() == r@.len() + 1,
            s@.subrange(start as int, i as int) == pieces(s@.take(i as int), sep).last(),
            forall|k: int|
                0 <= k < r@.len() ==> {
                    &&& (#[trigger] r@[k]).0 <= r@[k].1 <= s@.len()
                    &&& s@.subrange(r@[k].0 as int, r@[k].1 as int) == pieces(
                        s@.take(i as int),
                        sep,
                    )[k]
                },
        decreases s.len() - i,
    {
        let ghost before = pieces(s@.take(i as int), sep);
        let ghost now = s@.take(i + 1);
        assert(now.drop_last() == s@.take(i as int));
        assert(now.last() == s@[i as int]);
        if s[i] == sep {
            r.push((start, i));
            start = i + 1;
            assert(s@.subrange(i + 1, i + 1) == Seq::<char>::empty());
        } else {
            assert(s@.subrange(start as int, i + 1) == s@.subrange(start as int, i as int).push(
                s@[i as int],
            ));
        }
        i += 1;
    }
    assert(s@.take(s@.len() as int) == s@);
    r.push((start, i));
    r
}

/// The lines of `s`: its pieces between line feeds, each without the carriage return that stands
/// right before its line feed, and no empty piece after the last line feed.
pub open spec fn lines(s: Seq<char>) -> Seq<Seq<char>> {
    let all = pieces(s, '\n');
    let ended = all.drop_last().map_values(|l: Seq<char>| without_return(l));
    if all.last().len() == 0 {
        ended
    } else {
        ended.push(all.last())
    }
}

/// `l` without a carriage return at its end.
pub open spec fn without_return(l: Seq<char>) -> Seq<char> {
    if l.len() > 0 && l.last() == '\r' {
        l.drop_last()
    } else {
        l
    }
}

/// The lines of `s`, as positions in `s`.
pub fn line_spans(s: &[char]) -> (r: Vec<(usize, usize)>)
    ensures
        r@.len() == lines(s@).len(),
        forall|i: int|
            0 <= i < r@.len() ==> {
                &&& (#[trigger] r@[i]).0 <= r@[i].1 <= s@.len()
                &&& s@.subrange(r@[i].0 as int, r@[i].1 as int) == lines(s@)[i]
            },
{
    let spans = piece_spans(s, '\n');
    let ghost all = pieces(s@, '\n');
    proof {
        lemma_pieces(s@, '\n');
    }
    let last: usize = spans.len() - 1;
    let mut r: Vec<(usize, usize)> = Vec::new();
    let mut i: usize = 0;
    while i < last
        invariant
            i <= last == spans.len() - 1,
            spans_pieces(spans@, s@, '\n'),
            all == pieces(s@, '\n'),
            r@.len() == i,
            forall|k: int|
                0 <= k < r@.len() ==> {
                    &&& (#[trigger] r@[k]).0 <= r@[k].1 <= s@.len()
                    &&& s@.subrange(r@[k].0 as int, r@[k].1 as int) == without_return(all[k])
                },
        decreases last - i,
    {
        let (from, to) = spans[i];
        assert(s@.subrange(from as int, to as int) == all[i as int]);
        let end: usize = if from < to && s[to - 1] == '\r' {
            assert(all[i as int].last() == s@[to - 1]);
            assert(all[i as int].drop_last() == s@.subrange(from as int, to - 1));
            to - 1
        } else {
            to
        };
        r.push((from, end));
        i += 1;
    }
    let (from, to) = spans[last];
    assert(s@.subrange(from as int, to as int) == all[last as int]);
    if from < to {
        r.push((from, to));
    }
    assert(r@.len() == lines(s@).len());
    r
}

/// Adds `b` to the end of `a`.
pub fn push_all(a: &mut Vec<char>, b: &[char])
    ensures
        final(a)@ == old(a)@ + b@,
{
    let mut i: usize = 0;
    assert(b@.take(0) == Seq::<char>::empty());
    while i < b.len()
        invariant
            i <= b.len(),
            a@ == old(a)@ + b@.take(i as int),
        decreases b.len() - i,
    {
        a.push(b[i]);
        assert(b@.take(i + 1) == b@.take(i as int).push(b@[i as int]));
        i += 1;
    }
    assert(b@.take(b@.len() as int) == b@);
}

/// The digit `d`.
pub open spec fn digit(d: nat) -> char {
    (48 + d) as u8 as char
}

/// `n` in decimal.
pub open spec fn decimal(n: nat) -> Seq<char>
    decreases n,
{
    if n < 10 {
        seq![digit(n)]
    } else {
        decimal(n / 10).push(digit(n % 10))
    }
}

/// `n` tenths in decimal, with one digit behind the point.
pub open spec fn decimal_tenths(n: nat) -> Seq<char> {
    decimal(n / 10).push('.').push(digit(n % 10))
}

/// `n` in decimal, with a leading zero where it has one digit.
pub open spec fn decimal_two(n: nat) -> Seq<char> {
    if n < 10 {
        seq!['0', digit(n)]
    } else {
        decimal(n)
    }
}

/// Adds `n` in decimal to the end of `out`.
pub fn push_decimal(out: &mut String, n: u128)
    ensures
        final(out)@ == old(out)@ + decimal(n as nat),
    decreases n,
{
    if n >= 10 {
        push_decimal(out, n / 10);
    }
    let d: u8 = (n % 10) as u8;
    out.push((48 + d) as char);
    assert(out@ == old(out)@ + decimal(n as nat));
}

/// Adds `n` tenths to the end of `out`, with one digit behind the point.
pub fn push_tenths(out: &mut String, n: u128)
    ensures
        final(out)@ == old(out)@ + decimal_tenths(n as nat),
{
    push_decimal(out, n / 10);
    out.push('.');
    let d: u8 = (n % 10) as u8;
    out.push((48 + d) as char);
    assert(out@ == old(out)@ + decimal_tenths(n as nat));
}

/// Adds `n` to the end of `out`, with a leading zero where it has one digit.
pub fn push_two(out: &mut String, n: u128)
    ensures
        final(out)@ == old(out)@ + decimal_two(n as nat),
{
    if n < 10 {
        out.push('0');
        let d: u8 = n as u8;
        out.push((48 + d) as char);
        assert(out@ == old(out)@ + decimal_two(n as nat));
    } else {
        push_decimal(out, n);
    }
}

/// How many bytes `s` takes in UTF-8.
pub open spec fn bytes(s: Seq<char>) -> nat {
    vstd::utf8::encode_utf8(s).len()
}

/// How many bytes `s` takes in UTF-8.
pub fn byte_len(s: &str) -> (r: usize)
    ensures
        r == bytes(s@),
{
    s.as_bytes().len()
}

/// Texts put together take the bytes of both.
pub proof fn lemma_bytes_add(a: Seq<char>, b: Seq<char>)
    ensures
        bytes(a + b) == bytes(a) + bytes(b),
    decreases a.len(),
{
    if a.len() == 0 {
        assert(a + b == b);
    } else {
        assert((a + b).drop_first() == a.drop_first() + b);
        lemma_bytes_add(a.drop_first(), b);
    }
}

/// A character of the ASCII range takes one byte.
pub proof fn lemma_bytes_ascii(c: char)
    requires
        c as u32 <= 0x7f,
    ensures
        bytes(seq![c]) == 1,
{
    assert(seq![c].drop_first() == Seq::<char>::empty());
    reveal_with_fuel(vstd::utf8::encode_utf8, 2);
}

/// Every character takes a byte at least.
pub proof fn lemma_bytes_at_least(s: Seq<char>)
    ensures
        bytes(s) >= s.len(),
    decreases s.len(),
{
    if s.len() > 0 {
        lemma_bytes_at_least(s.drop_first());
    }
}

/// Where `c` stands last in `s`; `-1` where it does not.
pub open spec fn last_at(s: Seq<char>, c: char) -> int
    decreases s.len(),
{
    if s.len() == 0 {
        -1
    } else if s.last() == c {
        s.len() - 1
    } else {
        last_at(s.drop_last(), c)
    }
}

/// What stands behind the last `c` of `s`; all of `s` where there is none.
pub open spec fn after_last(s: Seq<char>, c: char) -> Seq<char> {
    s.skip(last_at(s, c) + 1)
}

/// How far behind the last `c` of `s` lies; zero where there is none.
pub fn past_last(s: &[char], c: char) -> (r: usize)
    ensures
        r == last_at(s@, c) + 1,
        r <= s@.len(),
{
    let mut n: usize = s.len();
    assert(s@.take(n as int) == s@);
    while n > 0 && s[n - 1] != c
        invariant
            n <= s.len(),
            last_at(s@, c) == last_at(s@.take(n as int), c),
        decreases n,
    {
        assert(s@.take(n as int).drop_last() == s@.take(n - 1));
        n -= 1;
    }
    if n > 0 {
        assert(s@.take(n as int).last() == c);
    }
    n
}

/// Where the part `n` of a text starts, in bytes, when one byte stands between parts.
pub open spec fn start_of(parts: Seq<Seq<char>>, n: int) -> nat
    decreases n,
{
    if n <= 0 {
        0
    } else {
        start_of(parts, n - 1) + bytes(parts[n - 1]) + 1
    }
}

/// Parts start in their order, each behind the one before.
pub proof fn lemma_starts_grow(parts: Seq<Seq<char>>, a: int, b: int)
    requires
        0 <= a < b,
    ensures
        start_of(parts, a) + bytes(parts[a]) + 1 <= start_of(parts, b),
    decreases b,
{
    if a < b - 1 {
        lemma_starts_grow(parts, a, b - 1);
    }
}

/// The last part ends where the text does.
pub proof fn lemma_starts_end(s: Seq<char>, sep: char)
    requires
        sep as u32 <= 0x7f,
    ensures
        start_of(pieces(s, sep), pieces(s, sep).len() as int) == bytes(s) + 1,
        pieces(s, sep).len() >= 1,
{
    lemma_pieces(s, sep);
    lemma_join_pieces(s, sep);
    lemma_join_bytes(pieces(s, sep), sep);
}

proof fn lemma_join_bytes(parts: Seq<Seq<char>>, sep: char)
    requires
        parts.len() >= 1,
        sep as u32 <= 0x7f,
    ensures
        start_of(parts, parts.len() as int) == bytes(joined(parts, sep)) + 1,
    decreases parts.len(),
{
    if parts.len() == 1 {
        assert(start_of(parts, 0) == 0);
    } else {
        let init = parts.drop_last();
        lemma_join_bytes(init, sep);
        lemma_starts_of(parts, init, init.len() as int);
        let before = joined(init, sep);
        lemma_bytes_add(before.push(sep), parts.last());
        lemma_bytes_add(before, seq![sep]);
        lemma_bytes_ascii(sep);
        assert(before.push(sep) == before + seq![sep]);
    }
}

/// Where a part starts rests on the parts before it alone.
pub proof fn lemma_starts_of(a: Seq<Seq<char>>, b: Seq<Seq<char>>, n: int)
    requires
        0 <= n <= a.len(),
        n <= b.len(),
        forall|i: int| 0 <= i < n ==> a[i] == b[i],
    ensures
        start_of(a, n) == start_of(b, n),
    decreases n,
{
    if n > 0 {
        lemma_starts_of(a, b, n - 1);
    }
}

/// The text that `s` holds.
pub open spec fn held(s: Option<String>) -> Option<Seq<char>> {
    match s {
        Some(s) => Some(s@),
        None => None,
    }
}

/// `needle` stands in `s` from the place `at`.
pub open spec fn stands_at(s: Seq<char>, needle: Seq<char>, at: int) -> bool {
    0 <= at && at + needle.len() <= s.len() && s.subrange(at, at + needle.len()) == needle
}

/// `needle` stands somewhere in `s`.
pub open spec fn holds(s: Seq<char>, needle: Seq<char>) -> bool {
    exists|at: int| stands_at(s, needle, at)
}

/// Where `needle` stands first in `s`.
pub open spec fn is_first(s: Seq<char>, needle: Seq<char>, at: int) -> bool {
    stands_at(s, needle, at) && forall|k: int| 0 <= k < at ==> !#[trigger] stands_at(s, needle, k)
}

/// Where `needle` stands first in `s`.
pub fn find(s: &[char], needle: &[char]) -> (r: Option<usize>)
    ensures
        r matches Some(at) ==> is_first(s@, needle@, at as int),
        r is None ==> !holds(s@, needle@),
{
    if s.len() < needle.len() {
        return None;
    }
    let last: usize = s.len() - needle.len();
    let mut at: usize = 0;
    while at <= last
        invariant
            last + needle.len() == s.len(),
            at <= last + 1,
            forall|k: int| 0 <= k < at ==> !#[trigger] stands_at(s@, needle@, k),
        decreases last + 1 - at,
    {
        if same(part(s, at, at + needle.len()), needle) {
            assert(stands_at(s@, needle@, at as int));
            return Some(at);
        }
        assert(!stands_at(s@, needle@, at as int));
        if at == last {
            assert forall|k: int| !stands_at(s@, needle@, k) by {
                if 0 <= k && k + needle@.len() <= s@.len() {
                    assert(k <= last);
                }
            }
            return None;
        }
        at += 1;
    }
    assert forall|k: int| !stands_at(s@, needle@, k) by {
        if 0 <= k && k + needle@.len() <= s@.len() {
            assert(k <= last);
        }
    }
    None
}

/// Whether `needle` stands somewhere in `s`.
pub fn contains(s: &[char], needle: &[char]) -> (r: bool)
    ensures
        r == holds(s@, needle@),
{
    match find(s, needle) {
        Some(at) => {
            assert(stands_at(s@, needle@, at as int));
            true
        },
        None => false,
    }
}

/// Whether two strings hold the same text.
pub fn same_text(a: &str, b: &str) -> (r: bool)
    ensures
        r == (a@ == b@),
{
    a.to_owned() == b.to_owned()
}

/// A copy of the string in `s`, where there is one.
pub fn copy_of(s: &Option<String>) -> (r: Option<String>)
    ensures
        held(r) == held(*s),
{
    match s {
        Some(s) => Some(s.clone()),
        None => None,
    }
}

/// A text with a small letter for each capital.
pub uninterp spec fn lowercase(s: Seq<char>) -> Seq<char>;

/// A character is a capital.
pub uninterp spec fn is_upper(c: char) -> bool;

/// `str::to_lowercase`: the text with a small letter for each capital, by Unicode's rules.
#[verifier::external_body]
pub(crate) fn to_lowercase(s: &str) -> (r: String)
    ensures
        r@ == lowercase(s@),
{
    s.to_lowercase()
}

/// `char::is_uppercase`: whether the character has Unicode's `Uppercase` property.
#[verifier::external_body]
pub(crate) fn is_uppercase(c: char) -> (r: bool)
    ensures
        r == is_upper(c),
{
    c.is_uppercase()
}

/// Some character of `s` is a capital.
pub open spec fn has_capital(s: Seq<char>) -> bool {
    exists|i: int| 0 <= i < s.len() && is_upper(#[trigger] s[i])
}

/// Whether some character of `s` is a capital.
pub fn any_capital(s: &[char]) -> (r: bool)
    ensures
        r == has_capital(s@),
{
    let mut i: usize = 0;
    while i < s.len()
        invariant
            i <= s.len(),
            forall|k: int| 0 <= k < i ==> !is_upper(#[trigger] s@[k]),
        decreases s.len() - i,
    {
        if is_uppercase(s[i]) {
            return true;
        }
        i += 1;
    }
    false
}

} // verus!
