//! A small table from identities to values.
use vstd::prelude::*;

verus! {

/// Values by identity, in the order they were put.
#[derive(Debug)]
pub struct Table<V> {
    entries: Vec<(u128, V)>,
}

/// The first value that `entries` has for `key`.
pub open spec fn first_at<V>(entries: Seq<(u128, V)>, key: u128) -> Option<V>
    decreases entries.len(),
{
    if entries.len() == 0 {
        None
    } else if entries[0].0 == key {
        Some(entries[0].1)
    } else {
        first_at(entries.drop_first(), key)
    }
}

proof fn lemma_first_at_push<V>(entries: Seq<(u128, V)>, one: (u128, V), key: u128)
    ensures
        first_at(entries.push(one), key) == (match first_at(entries, key) {
            Some(v) => Some(v),
            None => if one.0 == key {
                Some(one.1)
            } else {
                None
            },
        }),
    decreases entries.len(),
{
    let all = entries.push(one);
    if entries.len() == 0 {
        assert(all.drop_first() == Seq::<(u128, V)>::empty());
        reveal_with_fuel(first_at, 2);
    } else {
        assert(all[0] == entries[0]);
        assert(all.drop_first() == entries.drop_first().push(one));
        lemma_first_at_push(entries.drop_first(), one, key);
    }
}

proof fn lemma_first_at_remove<V>(entries: Seq<(u128, V)>, at: int, key: u128)
    requires
        0 <= at < entries.len(),
        entries[at].0 != key,
    ensures
        first_at(entries.remove(at), key) == first_at(entries, key),
    decreases entries.len(),
{
    let rest = entries.remove(at);
    if at == 0 {
        assert(rest == entries.drop_first());
    } else {
        assert(rest[0] == entries[0]);
        assert(rest.drop_first() == entries.drop_first().remove(at - 1));
        lemma_first_at_remove(entries.drop_first(), at - 1, key);
    }
}

proof fn lemma_first_at_none<V>(entries: Seq<(u128, V)>, key: u128)
    ensures
        first_at(entries, key) is None <==> forall|i: int|
            0 <= i < entries.len() ==> (#[trigger] entries[i]).0 != key,
    decreases entries.len(),
{
    if entries.len() > 0 {
        let rest = entries.drop_first();
        lemma_first_at_none(rest, key);
        if entries[0].0 != key && first_at(entries, key) is None {
            assert forall|i: int| 0 <= i < entries.len() implies (#[trigger] entries[i]).0
                != key by {
                if i > 0 {
                    assert(rest[i - 1] == entries[i]);
                }
            }
        }
        if first_at(entries, key) is Some && entries[0].0 != key {
            let i = choose|i: int| 0 <= i < rest.len() && (#[trigger] rest[i]).0 == key;
            assert(entries[i + 1] == rest[i]);
        }
    }
}

impl<V: DeepView> DeepView for Table<V> {
    type V = Map<u128, V::V>;

    closed spec fn deep_view(&self) -> Map<u128, V::V> {
        Map::new(
            |key: u128| first_at(self.entries@, key) is Some,
            |key: u128| first_at(self.entries@, key)->0.deep_view(),
        )
    }
}

impl<V: DeepView> Table<V> {
    /// Nothing in it.
    pub fn new() -> (r: Table<V>)
        ensures
            r.deep_view() == Map::<u128, V::V>::empty(),
    {
        let r = Table { entries: Vec::new() };
        assert(r.deep_view() =~= Map::<u128, V::V>::empty());
        r
    }

    /// The value for `key`.
    pub fn get(&self, key: u128) -> (r: Option<&V>)
        ensures
            r matches Some(v) ==> self.deep_view().contains_key(key) && self.deep_view()[key]
                == v.deep_view(),
            r is None ==> !self.deep_view().contains_key(key),
    {
        let mut i: usize = 0;
        let ghost all = self.entries@;
        assert(all.skip(0) == all);
        while i < self.entries.len()
            invariant
                i <= self.entries@.len(),
                all == self.entries@,
                first_at(all, key) == first_at(all.skip(i as int), key),
            decreases self.entries.len() - i,
        {
            proof {
                assert(all.skip(i as int)[0] == all[i as int]);
                assert(all.skip(i as int).drop_first() == all.skip(i + 1));
            }
            if self.entries[i].0 == key {
                return Some(&self.entries[i].1);
            }
            i += 1;
        }
        None
    }

    /// Whether there is a value for `key`.
    pub fn has(&self, key: u128) -> (r: bool)
        ensures
            r == self.deep_view().contains_key(key),
    {
        self.get(key).is_some()
    }

    /// Take out the value for `key`.
    pub fn take_out(&mut self, key: u128)
        ensures
            final(self).deep_view() == old(self).deep_view().remove(key),
    {
        let mut i: usize = 0;
        let ghost was = self.entries@;
        while i < self.entries.len()
            invariant
                i <= self.entries@.len(),
                forall|k: int| 0 <= k < i ==> (#[trigger] self.entries@[k]).0 != key,
                forall|k: u128|
                    k != key ==> #[trigger] first_at(self.entries@, k) == first_at(was, k),
            decreases self.entries@.len() - i,
        {
            if self.entries[i].0 == key {
                let ghost now = self.entries@;
                self.entries.remove(i);
                proof {
                    assert(self.entries@ == now.remove(i as int));
                    assert forall|k: u128| k != key implies #[trigger] first_at(self.entries@, k)
                        == first_at(was, k) by {
                        lemma_first_at_remove(now, i as int, k);
                        assert(first_at(now, k) == first_at(was, k));
                    }
                    assert forall|k: int| 0 <= k < i implies (#[trigger] self.entries@[k]).0
                        != key by {
                        assert(self.entries@[k] == now[k]);
                    }
                }
            } else {
                i += 1;
            }
        }
        proof {
            lemma_first_at_none(self.entries@, key);
            assert(self.deep_view() =~= old(self).deep_view().remove(key));
        }
    }

    /// Put `value` for `key`, in place of what was there.
    pub fn put(&mut self, key: u128, value: V)
        ensures
            final(self).deep_view() == old(self).deep_view().insert(key, value.deep_view()),
    {
        self.take_out(key);
        let ghost was = self.entries@;
        let ghost m = self.deep_view();
        self.entries.push((key, value));
        proof {
            assert forall|k: u128| #[trigger] first_at(self.entries@, k) == (match first_at(was, k) {
                Some(v) => Some(v),
                None => if k == key {
                    Some(value)
                } else {
                    None
                },
            }) by {
                lemma_first_at_push(was, (key, value), k);
            }
            assert(!m.contains_key(key));
            assert(self.deep_view() =~= m.insert(key, value.deep_view()));
            assert(m.insert(key, value.deep_view()) =~= old(self).deep_view().insert(
                key,
                value.deep_view(),
            ));
        }
    }

    /// The identities that have a value, in the order they were put.
    pub fn keys(&self) -> (r: Vec<u128>)
        ensures
            forall|k: u128| #[trigger] r@.contains(k) <==> self.deep_view().contains_key(k),
    {
        let mut out: Vec<u128> = Vec::new();
        let mut i: usize = 0;
        let ghost all = self.entries@;
        while i < self.entries.len()
            invariant
                i <= self.entries@.len(),
                all == self.entries@,
                out@.len() == i,
                forall|j: int| 0 <= j < i ==> #[trigger] out@[j] == all[j].0,
            decreases self.entries.len() - i,
        {
            out.push(self.entries[i].0);
            i += 1;
        }
        proof {
            assert forall|k: u128| #[trigger] out@.contains(k) <==> self.deep_view().contains_key(
                k,
            ) by {
                lemma_first_at_none(all, k);
                if out@.contains(k) {
                    let j = choose|j: int| 0 <= j < out@.len() && out@[j] == k;
                    assert(all[j].0 == k);
                }
                if first_at(all, k) is Some {
                    let j = choose|j: int| 0 <= j < all.len() && (#[trigger] all[j]).0 == k;
                    assert(out@[j] == k);
                }
            }
        }
        out
    }
}

} // verus!
