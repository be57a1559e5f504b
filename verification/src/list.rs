//! Lists of identities.
use vstd::prelude::*;

verus! {

/// Where `x` stands first in `s`: its length where it does not.
pub open spec fn first_index(s: Seq<u128>, x: u128) -> int
    decreases s.len(),
{
    if s.len() == 0 {
        0
    } else if s[0] == x {
        0
    } else {
        1 + first_index(s.drop_first(), x)
    }
}

/// `s` without `x`.
pub open spec fn dropped(s: Seq<u128>, x: u128) -> Seq<u128>
    decreases s.len(),
{
    if s.len() == 0 {
        Seq::empty()
    } else if s.last() == x {
        dropped(s.drop_last(), x)
    } else {
        dropped(s.drop_last(), x).push(s.last())
    }
}

pub proof fn lemma_first_index(s: Seq<u128>, x: u128)
    ensures
        0 <= first_index(s, x) <= s.len(),
        first_index(s, x) < s.len() <==> s.contains(x),
        first_index(s, x) < s.len() ==> s[first_index(s, x)] == x,
        forall|i: int| 0 <= i < first_index(s, x) ==> s[i] != x,
    decreases s.len(),
{
    if s.len() > 0 && s[0] != x {
        let rest = s.drop_first();
        lemma_first_index(rest, x);
        assert forall|i: int| 0 <= i < first_index(s, x) implies s[i] != x by {
            if i > 0 {
                assert(rest[i - 1] == s[i]);
            }
        }
        if first_index(s, x) < s.len() {
            assert(rest[first_index(rest, x)] == s[first_index(s, x)]);
        }
        if s.contains(x) {
            let k = choose|k: int| 0 <= k < s.len() && s[k] == x;
            assert(rest[k - 1] == x);
        }
    }
}

pub proof fn lemma_dropped(s: Seq<u128>, x: u128)
    ensures
        !dropped(s, x).contains(x),
        forall|y: u128| y != x ==> (#[trigger] dropped(s, x).contains(y) <==> s.contains(y)),
    decreases s.len(),
{
    if s.len() > 0 {
        let rest = s.drop_last();
        lemma_dropped(rest, x);
        assert forall|y: u128| y != x implies (#[trigger] dropped(s, x).contains(y) <==> s.contains(
            y,
        )) by {
            assert(s == rest.push(s.last()));
            if s.last() != x {
                let now = dropped(rest, x).push(s.last());
                assert(now[now.len() - 1] == s.last());
                if dropped(rest, x).contains(y) {
                    let k = choose|k: int| 0 <= k < dropped(rest, x).len() && dropped(rest, x)[k] == y;
                    assert(now[k] == y);
                }
            }
            if rest.contains(y) {
                let k = choose|k: int| 0 <= k < rest.len() && rest[k] == y;
                assert(s[k] == y);
            }
            if s.contains(y) && s.last() != y {
                let k = choose|k: int| 0 <= k < s.len() && s[k] == y;
                assert(rest[k] == y);
            }
        }
    }
}

/// Where `x` stands first in `v`.
pub fn position(v: &Vec<u128>, x: u128) -> (r: Option<usize>)
    ensures
        match r {
            Some(i) => i == first_index(v@, x) && i < v@.len(),
            None => first_index(v@, x) == v@.len(),
        },
        r is Some <==> v@.contains(x),
{
    let mut i: usize = 0;
    proof {
        lemma_first_index(v@, x);
    }
    while i < v.len()
        invariant
            i <= v@.len(),
            i <= first_index(v@, x),
            0 <= first_index(v@, x) <= v@.len(),
            first_index(v@, x) < v@.len() <==> v@.contains(x),
            first_index(v@, x) < v@.len() ==> v@[first_index(v@, x)] == x,
            forall|k: int| 0 <= k < first_index(v@, x) ==> v@[k] != x,
        decreases v.len() - i,
    {
        if v[i] == x {
            return Some(i);
        }
        i += 1;
    }
    None
}

/// Whether `v` holds `x`.
pub fn holds_id(v: &Vec<u128>, x: u128) -> (r: bool)
    ensures
        r == v@.contains(x),
{
    position(v, x).is_some()
}

/// Take every `x` out of `v`.
pub fn drop_id(v: &mut Vec<u128>, x: u128)
    ensures
        final(v)@ == dropped(old(v)@, x),
{
    let mut kept: Vec<u128> = Vec::new();
    let ghost all = v@;
    let mut i: usize = 0;
    while i < v.len()
        invariant
            i <= v@.len(),
            all == v@,
            kept@ == dropped(all.take(i as int), x),
        decreases v.len() - i,
    {
        proof {
            assert(all.take(i + 1).drop_last() == all.take(i as int));
            assert(all.take(i + 1).last() == all[i as int]);
        }
        if v[i] != x {
            kept.push(v[i]);
        }
        i += 1;
    }
    assert(all.take(i as int) == all);
    *v = kept;
}

} // verus!
