//! What texts promise: numbers read back, lines make up their text, trimming leaves no blank edge.
use vstd::prelude::*;

use crate::text::{
    after_last, decimal, decimal_tenths, decimal_two, digit, is_white, joined, last_at, lead,
    lemma_join_pieces, lemma_lead, lemma_pieces, lemma_trail, lines, pieces, trail, trim, trim_end,
    trim_start, without_return,
};

verus! {

/// `text` holds nothing but white space.
pub open spec fn blank(text: Seq<char>) -> bool {
    forall|i: int| 0 <= i < text.len() ==> is_white(#[trigger] text[i])
}

/// `inner` is `text` without the white space around it.
pub open spec fn bared(text: Seq<char>, inner: Seq<char>) -> bool {
    exists|a: int, b: int|
        0 <= a <= b <= text.len() && #[trigger] text.subrange(a, b) == inner && blank(text.take(a))
            && blank(text.skip(b)) && (a < b ==> !is_white(text[a]) && !is_white(text[b - 1]))
}

/// The characters of white space, by their numbers: the controls that move the cursor, the spaces of
/// every width, and the separators of lines and paragraphs.
pub proof fn law_white_space_is_unicodes(c: char)
    ensures
        is_white(c) <==> seq![
            0x09u32, 0x0au32, 0x0bu32, 0x0cu32, 0x0du32, 0x20u32, 0x85u32, 0xa0u32, 0x1680u32,
            0x2000u32, 0x2001u32, 0x2002u32, 0x2003u32, 0x2004u32, 0x2005u32, 0x2006u32, 0x2007u32,
            0x2008u32, 0x2009u32, 0x200au32, 0x2028u32, 0x2029u32, 0x202fu32, 0x205fu32, 0x3000u32,
        ].contains(c as u32),
{
    let all = seq![
        0x09u32, 0x0au32, 0x0bu32, 0x0cu32, 0x0du32, 0x20u32, 0x85u32, 0xa0u32, 0x1680u32,
        0x2000u32, 0x2001u32, 0x2002u32, 0x2003u32, 0x2004u32, 0x2005u32, 0x2006u32, 0x2007u32,
        0x2008u32, 0x2009u32, 0x200au32, 0x2028u32, 0x2029u32, 0x202fu32, 0x205fu32, 0x3000u32,
    ];
    let n = c as u32;
    if is_white(c) {
        let at: int = if n <= 0xd {
            n - 9
        } else if n == 0x20 {
            5
        } else if n == 0x85 {
            6
        } else if n == 0xa0 {
            7
        } else if n == 0x1680 {
            8
        } else if n <= 0x200a {
            9 + n - 0x2000
        } else if n == 0x2028 {
            20
        } else if n == 0x2029 {
            21
        } else if n == 0x202f {
            22
        } else if n == 0x205f {
            23
        } else {
            24
        };
        assert(all[at] == n);
    }
}

/// Trimming takes the white space off both ends of a text and nothing else: what is left is empty, or
/// starts and ends with something that shows.
pub proof fn law_trimming_leaves_no_blank_edge(text: Seq<char>)
    ensures
        bared(text, trim(text)),
        (trim(text).len() == 0) == blank(text),
{
    lemma_lead(text);
    let bare = trim_start(text);
    lemma_trail(bare);
    let a = lead(text) as int;
    let b = text.len() - trail(bare);
    assert(trim(text) == text.subrange(a, b));
    assert forall|i: int| 0 <= i < a implies is_white(#[trigger] text.take(a)[i]) by {
        assert(text[i] == text.take(a)[i]);
    }
    assert forall|i: int| 0 <= i < text.skip(b).len() implies is_white(
        #[trigger] text.skip(b)[i],
    ) by {
        assert(text.skip(b)[i] == bare[b + i - a]);
    }
    if a < b {
        assert(bare[b - 1 - a] == text[b - 1]);
        assert(!is_white(text[a]));
    } else {
        assert forall|i: int| 0 <= i < text.len() implies is_white(#[trigger] text[i]) by {
            if i >= a {
                assert(text.skip(b)[i - b] == text[i]);
            } else {
                assert(text.take(a)[i] == text[i]);
            }
        }
    }
}

/// Trimming one end leaves the other as it is.
pub proof fn law_trimming_one_end(text: Seq<char>)
    ensures
        trim_start(text).len() <= text.len(),
        trim_end(text).len() <= text.len(),
        trim_start(text) == text.skip(text.len() - trim_start(text).len()),
        blank(text.take(text.len() - trim_start(text).len())),
        trim_start(text).len() > 0 ==> !is_white(trim_start(text)[0]),
        trim_end(text) == text.take(trim_end(text).len() as int),
        blank(text.skip(trim_end(text).len() as int)),
        trim_end(text).len() > 0 ==> !is_white(trim_end(text).last()),
{
    lemma_lead(text);
    lemma_trail(text);
    let a = text.take(lead(text) as int);
    assert forall|i: int| 0 <= i < a.len() implies is_white(#[trigger] a[i]) by {
        assert(a[i] == text[i]);
    }
    let b = text.skip(text.len() - trail(text));
    assert forall|i: int| 0 <= i < b.len() implies is_white(#[trigger] b[i]) by {
        assert(b[i] == text[text.len() - trail(text) + i]);
    }
}

/// What the digits `s` come to, read from the left.
pub open spec fn value(s: Seq<char>) -> int
    decreases s.len(),
{
    if s.len() == 0 {
        0
    } else {
        10 * value(s.drop_last()) + (s.last() as int - '0' as int)
    }
}

/// `s` is made of decimal digits.
pub open spec fn digits(s: Seq<char>) -> bool {
    forall|i: int| 0 <= i < s.len() ==> '0' <= #[trigger] s[i] <= '9'
}

/// A number written in decimal reads back as itself, and has no zero in front.
pub proof fn law_a_decimal_reads_back(n: nat)
    ensures
        value(decimal(n)) == n,
        digits(decimal(n)),
        decimal(n).len() > 0,
        decimal(n).len() > 1 ==> decimal(n)[0] != '0',
    decreases n,
{
    let d = n % 10;
    assert(digit(d) as int == '0' as int + d);
    if n >= 10 {
        law_a_decimal_reads_back(n / 10);
        let front = decimal(n / 10);
        let all = decimal(n);
        assert(all.drop_last() =~= front);
        assert forall|i: int| 0 <= i < all.len() implies '0' <= #[trigger] all[i] <= '9' by {
            if i < front.len() {
                assert(all[i] == front[i]);
            }
        }
        assert(all[0] == front[0]);
        if front.len() == 1 {
            assert(front.drop_last() =~= Seq::<char>::empty());
            assert(value(front) == front[0] as int - '0' as int) by {
                reveal_with_fuel(value, 2);
            }
        }
    } else {
        let all = decimal(n);
        assert(all.drop_last() =~= Seq::<char>::empty());
        assert(all.last() == digit(d) && d == n);
        assert(value(all.drop_last()) == 0);
        assert(value(all) == n);
    }
}

/// Tenths have one digit behind the point, and read back with the point left out; two digits are two
/// at least, with a zero in front where there is one to spare.
pub proof fn law_tenths_and_pairs_read_back(n: nat)
    ensures
        ({
            let s = decimal_tenths(n);
            &&& s.len() >= 3 && s[s.len() - 2] == '.'
            &&& value(s.take(s.len() - 2).push(s.last())) == n
            &&& value(s.take(s.len() - 2)) == n / 10
        }),
        value(decimal_two(n)) == n,
        decimal_two(n).len() >= 2,
        digits(decimal_two(n)),
        decimal_two(n).len() > 2 ==> decimal_two(n)[0] != '0',
{
    law_a_decimal_reads_back(n);
    law_a_decimal_reads_back(n / 10);
    let d = n % 10;
    assert(digit(d) as int == '0' as int + d);
    let s = decimal_tenths(n);
    let front = decimal(n / 10);
    assert(s.take(s.len() - 2) =~= front);
    assert(front.push(digit(d)).drop_last() =~= front);
    if n < 10 {
        let two = decimal_two(n);
        assert(two.drop_last() =~= seq!['0']);
        assert(seq!['0'].drop_last() =~= Seq::<char>::empty());
        reveal_with_fuel(value, 3);
    } else {
        let tens = decimal(n);
        assert(tens.drop_last() =~= front);
    }
}

/// What stands behind the last `c` holds none, and all of the text does where there is none.
pub proof fn law_what_stands_behind_the_last(s: Seq<char>, c: char)
    ensures
        ({
            let rest = after_last(s, c);
            &&& !rest.contains(c)
            &&& rest.len() <= s.len()
            &&& rest == s.skip(s.len() - rest.len())
            &&& s.contains(c) ==> rest.len() < s.len() && s[s.len() - rest.len() - 1] == c
            &&& !s.contains(c) ==> rest == s
        }),
    decreases s.len(),
{
    if s.len() > 0 {
        let init = s.drop_last();
        law_what_stands_behind_the_last(init, c);
        let rest = after_last(s, c);
        if s.last() == c {
            assert(rest =~= Seq::<char>::empty());
            assert(s[s.len() - 1] == c);
        } else {
            let was = after_last(init, c);
            assert(last_at(s, c) == last_at(init, c));
            lemma_last_range(init, c);
            assert(rest =~= was.push(s.last()));
            if rest.contains(c) {
                let i = choose|i: int| 0 <= i < rest.len() && rest[i] == c;
                assert(was[i] == c);
            }
            if s.contains(c) {
                let i = choose|i: int| 0 <= i < s.len() && s[i] == c;
                assert(init[i] == c);
            } else if init.contains(c) {
                let i = choose|i: int| 0 <= i < init.len() && init[i] == c;
                assert(s[i] == c);
            }
        }
    } else {
        assert(after_last(s, c) =~= s);
    }
}

proof fn lemma_last_range(s: Seq<char>, c: char)
    ensures
        -1 <= last_at(s, c) < s.len(),
    decreases s.len(),
{
    if s.len() > 0 && s.last() != c {
        lemma_last_range(s.drop_last(), c);
    }
}

/// The lines with their endings, one after the other.
pub open spec fn glued(all: Seq<Seq<char>>, ends: Seq<Seq<char>>) -> Seq<char>
    decreases all.len(),
{
    if all.len() == 0 {
        Seq::empty()
    } else {
        all[0] + ends[0] + glued(all.drop_first(), ends.drop_first())
    }
}

/// The endings fit the lines: each line ends with a line feed or with a carriage return and a line
/// feed, which it takes with it where it is there; the last may end with the text, where it holds
/// something.
pub open spec fn endings(all: Seq<Seq<char>>, ends: Seq<Seq<char>>) -> bool {
    &&& ends.len() == all.len()
    &&& forall|i: int|
        0 <= i < all.len() ==> {
            let (line, end) = (#[trigger] all[i], ends[i]);
            &&& !line.contains('\n')
            &&& end == seq!['\n'] || end == seq!['\r', '\n'] || (i == all.len() - 1 && end
                == Seq::<char>::empty() && line.len() > 0)
            &&& end == seq!['\n'] ==> line.len() == 0 || line.last() != '\r'
        }
}

spec fn lines_in(all: Seq<Seq<char>>) -> Seq<Seq<char>> {
    let ended = all.drop_last().map_values(|l: Seq<char>| without_return(l));
    if all.last().len() == 0 {
        ended
    } else {
        ended.push(all.last())
    }
}

proof fn lemma_joined_front(all: Seq<Seq<char>>)
    requires
        all.len() > 1,
    ensures
        joined(all, '\n') == all[0] + seq!['\n'] + joined(all.drop_first(), '\n'),
    decreases all.len(),
{
    let init = all.drop_last();
    let rest = all.drop_first();
    if all.len() == 2 {
        assert(joined(init, '\n') == all[0]);
        assert(joined(rest, '\n') == all[1]);
        assert(joined(all, '\n') =~= all[0] + seq!['\n'] + all[1]);
    } else {
        lemma_joined_front(init);
        assert(init.drop_first() == rest.drop_last());
        assert(joined(all, '\n') =~= all[0] + seq!['\n'] + joined(rest, '\n'));
    }
}

proof fn lemma_glue(all: Seq<Seq<char>>) -> (ends: Seq<Seq<char>>)
    requires
        all.len() >= 1,
        forall|i: int| 0 <= i < all.len() ==> !(#[trigger] all[i]).contains('\n'),
    ensures
        endings(lines_in(all), ends),
        glued(lines_in(all), ends) == joined(all, '\n'),
    decreases all.len(),
{
    let ls = lines_in(all);
    if all.len() == 1 {
        assert(all.drop_last() =~= Seq::<Seq<char>>::empty());
        if all[0].len() == 0 {
            assert(ls =~= Seq::<Seq<char>>::empty());
            assert(joined(all, '\n') =~= Seq::<char>::empty());
            Seq::empty()
        } else {
            let ends = seq![Seq::<char>::empty()];
            assert(ls =~= seq![all[0]]);
            assert(ls.drop_first() =~= Seq::<Seq<char>>::empty());
            assert(glued(ls, ends) =~= all[0]) by {
                reveal_with_fuel(glued, 2);
            }
            ends
        }
    } else {
        let rest = all.drop_first();
        assert forall|i: int| 0 <= i < rest.len() implies !(#[trigger] rest[i]).contains('\n') by {
            assert(rest[i] == all[i + 1]);
        }
        let later = lemma_glue(rest);
        let line = without_return(all[0]);
        let end = if line.len() < all[0].len() {
            seq!['\r', '\n']
        } else {
            seq!['\n']
        };
        let ends = seq![end] + later;
        assert(rest.drop_last() =~= all.drop_last().drop_first());
        assert(ls =~= seq![line] + lines_in(rest));
        assert(ls.drop_first() =~= lines_in(rest));
        assert(ends.drop_first() =~= later);
        assert(line + end =~= all[0] + seq!['\n']);
        lemma_joined_front(all);
        assert(glued(ls, ends) =~= joined(all, '\n'));
        assert forall|i: int| 0 <= i < ls.len() implies {
            let (l, e) = (#[trigger] ls[i], ends[i]);
            &&& !l.contains('\n')
            &&& e == seq!['\n'] || e == seq!['\r', '\n'] || (i == ls.len() - 1 && e
                == Seq::<char>::empty() && l.len() > 0)
            &&& e == seq!['\n'] ==> l.len() == 0 || l.last() != '\r'
        } by {
            if i == 0 {
                if line.contains('\n') {
                    let k = choose|k: int| 0 <= k < line.len() && line[k] == '\n';
                    assert(all[0][k] == '\n');
                }
                assert(seq!['\r', '\n'].len() == 2 && seq!['\n'].len() == 1);
            } else {
                assert(ls[i] == lines_in(rest)[i - 1]);
            }
        }
        ends
    }
}

/// The lines of a text make it up: with their endings, one after the other, they are the text, and
/// none holds a line feed.
pub proof fn law_the_lines_make_up_the_text(s: Seq<char>)
    ensures
        exists|ends: Seq<Seq<char>>| #[trigger]
            endings(lines(s), ends) && glued(lines(s), ends) == s,
{
    lemma_pieces(s, '\n');
    lemma_join_pieces(s, '\n');
    let ends = lemma_glue(pieces(s, '\n'));
    assert(lines(s) == lines_in(pieces(s, '\n')));
    assert(endings(lines(s), ends));
}

} // verus!
