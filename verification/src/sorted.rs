//! Texts in order, each once.
use vstd::prelude::*;

use crate::text::{chars_of, same_text};

verus! {

/// Texts in the order of their characters.
pub open spec fn text_before(a: Seq<char>, b: Seq<char>) -> bool
    decreases a.len(),
{
    if b.len() == 0 {
        false
    } else if a.len() == 0 {
        true
    } else if a[0] == b[0] {
        text_before(a.drop_first(), b.drop_first())
    } else {
        a[0] < b[0]
    }
}

/// Texts in strictly ascending order.
pub open spec fn ascending(list: Seq<Seq<char>>) -> bool {
    forall|i: int, j: int| 0 <= i < j < list.len() ==> text_before(list[i], list[j])
}

/// `one` in its place in an ascending list, unless it is there.
pub open spec fn inserted(list: Seq<Seq<char>>, one: Seq<char>) -> Seq<Seq<char>>
    decreases list.len(),
{
    if list.len() == 0 {
        seq![one]
    } else if list[0] == one {
        list
    } else if text_before(list[0], one) {
        seq![list[0]] + inserted(list.drop_first(), one)
    } else {
        seq![one] + list
    }
}

/// All of `more` in their places in an ascending list.
pub open spec fn all_inserted(list: Seq<Seq<char>>, more: Seq<Seq<char>>) -> Seq<Seq<char>>
    decreases more.len(),
{
    if more.len() == 0 {
        list
    } else {
        inserted(all_inserted(list, more.drop_last()), more.last())
    }
}

pub proof fn lemma_text_before(a: Seq<char>, b: Seq<char>, c: Seq<char>)
    ensures
        !text_before(a, a),
        a != b ==> text_before(a, b) || text_before(b, a),
        text_before(a, b) && text_before(b, c) ==> text_before(a, c),
    decreases a.len() + b.len() + c.len(),
{
    if a.len() > 0 && b.len() > 0 && a[0] == b[0] {
        assert(a == seq![a[0]] + a.drop_first());
        assert(b == seq![b[0]] + b.drop_first());
    }
    if a.len() == 0 && b.len() == 0 {
        assert(a == b);
    }
    if a.len() > 0 {
        let b1 = if b.len() > 0 {
            b.drop_first()
        } else {
            b
        };
        let c1 = if c.len() > 0 {
            c.drop_first()
        } else {
            c
        };
        lemma_text_before(a.drop_first(), b1, c1);
    }
}

/// A text put in its place keeps the list ascending, and the list then holds it and what it held.
pub proof fn lemma_inserted(list: Seq<Seq<char>>, one: Seq<char>)
    requires
        ascending(list),
    ensures
        ascending(inserted(list, one)),
        forall|t: Seq<char>| #[trigger]
            inserted(list, one).contains(t) <==> list.contains(t) || t == one,
    decreases list.len(),
{
    let now = inserted(list, one);
    if list.len() == 0 {
        assert(now[0] == one);
    } else if list[0] == one {
    } else if text_before(list[0], one) {
        let rest = list.drop_first();
        assert(ascending(rest)) by {
            assert forall|i: int, j: int| 0 <= i < j < rest.len() implies text_before(
                rest[i],
                rest[j],
            ) by {
                assert(rest[i] == list[i + 1] && rest[j] == list[j + 1]);
            }
        }
        lemma_inserted(rest, one);
        let tail = inserted(rest, one);
        assert(now == seq![list[0]] + tail);
        assert forall|t: Seq<char>| #[trigger] now.contains(t) <==> list.contains(t) || t
            == one by {
            if now.contains(t) {
                let k = choose|k: int| 0 <= k < now.len() && now[k] == t;
                if k > 0 {
                    assert(tail[k - 1] == t);
                    assert(tail.contains(t));
                    if rest.contains(t) {
                        let m = choose|m: int| 0 <= m < rest.len() && rest[m] == t;
                        assert(list[m + 1] == t);
                    }
                } else {
                    assert(list[0] == t);
                }
            }
            if list.contains(t) {
                let k = choose|k: int| 0 <= k < list.len() && list[k] == t;
                if k == 0 {
                    assert(now[0] == t);
                } else {
                    assert(rest[k - 1] == t);
                    assert(tail.contains(t));
                    let m = choose|m: int| 0 <= m < tail.len() && tail[m] == t;
                    assert(now[m + 1] == t);
                }
            }
            if t == one {
                assert(tail.contains(t));
                let m = choose|m: int| 0 <= m < tail.len() && tail[m] == t;
                assert(now[m + 1] == t);
            }
        }
        assert forall|i: int, j: int| 0 <= i < j < now.len() implies text_before(now[i], now[j]) by {
            assert(now[j] == tail[j - 1]);
            if i > 0 {
                assert(now[i] == tail[i - 1]);
            } else {
                assert(tail.contains(tail[j - 1]));
                if tail[j - 1] != one {
                    let m = choose|m: int| 0 <= m < rest.len() && rest[m] == tail[j - 1];
                    assert(list[m + 1] == rest[m]);
                }
            }
        }
    } else {
        lemma_text_before(list[0], one, one);
        assert forall|i: int, j: int| 0 <= i < j < now.len() implies text_before(now[i], now[j]) by {
            assert(now[j] == list[j - 1]);
            if i > 0 {
                assert(now[i] == list[i - 1]);
            } else if j > 1 {
                lemma_text_before(one, list[0], list[j - 1]);
            }
        }
        assert forall|t: Seq<char>| #[trigger] now.contains(t) <==> list.contains(t) || t
            == one by {
            if now.contains(t) {
                let k = choose|k: int| 0 <= k < now.len() && now[k] == t;
                if k > 0 {
                    assert(list[k - 1] == t);
                }
            }
            if list.contains(t) {
                let k = choose|k: int| 0 <= k < list.len() && list[k] == t;
                assert(now[k + 1] == t);
            }
            assert(now[0] == one);
        }
    }
}

/// Texts put in their places keep the list ascending, and the list then holds them and what it
/// held.
pub proof fn lemma_all_inserted(list: Seq<Seq<char>>, more: Seq<Seq<char>>)
    requires
        ascending(list),
    ensures
        ascending(all_inserted(list, more)),
        forall|t: Seq<char>| #[trigger]
            all_inserted(list, more).contains(t) <==> list.contains(t) || more.contains(t),
    decreases more.len(),
{
    if more.len() > 0 {
        let rest = more.drop_last();
        lemma_all_inserted(list, rest);
        lemma_inserted(all_inserted(list, rest), more.last());
        assert forall|t: Seq<char>| #[trigger] all_inserted(list, more).contains(t) <==>
            list.contains(t) || more.contains(t) by {
            if more.contains(t) && t != more.last() {
                let k = choose|k: int| 0 <= k < more.len() && more[k] == t;
                assert(rest[k] == t);
            }
            if rest.contains(t) {
                let k = choose|k: int| 0 <= k < rest.len() && rest[k] == t;
                assert(more[k] == t);
            }
            assert(more[more.len() - 1] == more.last());
            assert(inserted(all_inserted(list, rest), more.last()).contains(t) <==> all_inserted(
                list,
                rest,
            ).contains(t) || t == more.last());
        }
    }
}

/// Whether `a` comes before `b`.
fn comes_before(a: &str, b: &str) -> (r: bool)
    ensures
        r == text_before(a@, b@),
{
    let x = chars_of(a);
    let y = chars_of(b);
    let mut i: usize = 0;
    assert(a@.skip(0) == a@);
    assert(b@.skip(0) == b@);
    while i < x.len() && i < y.len()
        invariant
            x@ == a@,
            y@ == b@,
            i <= x@.len(),
            i <= y@.len(),
            text_before(a@, b@) == text_before(a@.skip(i as int), b@.skip(i as int)),
        decreases x.len() - i,
    {
        proof {
            assert(a@.skip(i as int).drop_first() == a@.skip(i + 1));
            assert(b@.skip(i as int).drop_first() == b@.skip(i + 1));
        }
        if x[i] != y[i] {
            return x[i] < y[i];
        }
        i += 1;
    }
    i < y.len()
}

/// Put `one` in its place, unless it is there.
pub fn insert_text(list: &mut Vec<String>, one: String)
    ensures
        final(list).deep_view() == inserted(old(list).deep_view(), one@),
{
    let ghost was = list.deep_view();
    let ghost t = one@;
    let mut i: usize = 0;
    assert(was.skip(0) == was);
    assert(was.take(0) + inserted(was.skip(0), t) =~= inserted(was, t));
    while i < list.len() && comes_before(list[i].as_str(), one.as_str()) && !same_text(
        list[i].as_str(),
        one.as_str(),
    )
        invariant
            i <= list@.len(),
            was == list.deep_view(),
            was.len() == list@.len(),
            t == one@,
            inserted(was, t) == was.take(i as int) + inserted(was.skip(i as int), t),
        decreases list.len() - i,
    {
        proof {
            let rest = was.skip(i as int);
            assert(rest[0] == list@[i as int]@);
            assert(rest.drop_first() == was.skip(i + 1));
            assert(was.take(i + 1) == was.take(i as int).push(rest[0]));
            assert(was.take(i as int) + (seq![rest[0]] + inserted(was.skip(i + 1), t))
                =~= was.take(i + 1) + inserted(was.skip(i + 1), t));
        }
        i += 1;
    }
    proof {
        let rest = was.skip(i as int);
        if i < was.len() {
            assert(rest[0] == list@[i as int]@);
        }
        assert(was.take(i as int) + rest =~= was);
    }
    if i < list.len() && same_text(list[i].as_str(), one.as_str()) {
        return;
    }
    proof {
        let rest = was.skip(i as int);
        assert(inserted(rest, t) =~= seq![t] + rest);
    }
    list.insert(i, one);
    assert(list.deep_view() =~= was.take(i as int) + (seq![t] + was.skip(i as int)));
}

/// Put all of `more` in their places.
pub fn insert_all(list: &mut Vec<String>, more: &Vec<String>)
    ensures
        final(list).deep_view() == all_inserted(old(list).deep_view(), more.deep_view()),
{
    let ghost was = list.deep_view();
    let ghost all = more.deep_view();
    let mut i: usize = 0;
    while i < more.len()
        invariant
            i <= more@.len(),
            all == more.deep_view(),
            list.deep_view() == all_inserted(was, all.take(i as int)),
        decreases more.len() - i,
    {
        proof {
            assert(all[i as int] == more@[i as int]@);
            assert(all.take(i + 1).drop_last() == all.take(i as int));
            assert(all.take(i + 1).last() == all[i as int]);
        }
        insert_text(list, more[i].clone());
        i += 1;
    }
    assert(all.take(i as int) == all);
}

/// Whether the two lists hold the same texts in the same order.
pub fn same_texts(a: &Vec<String>, b: &Vec<String>) -> (r: bool)
    ensures
        r == (a.deep_view() == b.deep_view()),
{
    if a.len() != b.len() {
        assert(a.deep_view().len() != b.deep_view().len());
        return false;
    }
    let mut i: usize = 0;
    while i < a.len()
        invariant
            i <= a@.len() == b@.len(),
            forall|k: int| 0 <= k < i ==> (#[trigger] a@[k])@ == b@[k]@,
        decreases a.len() - i,
    {
        if !same_text(a[i].as_str(), b[i].as_str()) {
            assert(a.deep_view()[i as int] != b.deep_view()[i as int]);
            return false;
        }
        i += 1;
    }
    assert(a.deep_view() =~= b.deep_view());
    true
}

} // verus!
