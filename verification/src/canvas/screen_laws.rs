//! What holds of the streams whatever the document becomes.
use vstd::prelude::*;

use crate::canvas::doc::Item;
use crate::canvas::msg::{CaptureTarget, Done, ScreenRequest};
use crate::canvas::screens::{
    asked_but, asked_for, asked_on, is_wanted, screen_req, some_untitled, still_asked, stream_on,
    wanted, ScreenState, Stream,
};

verus! {

/// No two streams on their way show the same target.
pub open spec fn asked_once(pending: Seq<(CaptureTarget, u128)>) -> bool {
    forall|i: int, j: int|
        0 <= i < j < pending.len() ==> (#[trigger] pending[i]).0 != (#[trigger] pending[j]).0
}

/// Every stream on its way is for one of the cards that want one.
pub open spec fn all_wanted(
    pending: Seq<(CaptureTarget, u128)>,
    want: Seq<(u128, CaptureTarget)>,
) -> bool {
    forall|i: int| 0 <= i < pending.len() ==> is_wanted(want, (#[trigger] pending[i]).1)
}

/// A stream of the target is on its way to a card that wants none any more: it is waited for no
/// longer, and another card that shows the same target asks for it the next time.
pub open spec fn abandoned(
    pending: Seq<(CaptureTarget, u128)>,
    want: Seq<(u128, CaptureTarget)>,
    target: CaptureTarget,
) -> bool {
    exists|i: int|
        0 <= i < pending.len() && (#[trigger] pending[i]).0 == target && !is_wanted(
            want,
            pending[i].1,
        )
}

/// The card has its stream, or one is on its way to it, or its target is on its way elsewhere.
pub open spec fn served(screens: ScreenState, one: (u128, CaptureTarget)) -> bool {
    stream_on(screens.open, one.0) is Some || asked_on(screens.pending, one.0) || asked_for(
        screens.pending,
        one.1,
    ) is Some
}

proof fn lemma_asked_for(pending: Seq<(CaptureTarget, u128)>, target: CaptureTarget)
    ensures
        asked_for(pending, target) is Some <==> exists|i: int|
            0 <= i < pending.len() && (#[trigger] pending[i]).0 == target,
    decreases pending.len(),
{
    if pending.len() > 0 && pending[0].0 != target {
        let rest = pending.drop_first();
        lemma_asked_for(rest, target);
        if asked_for(rest, target) is Some {
            let i = choose|i: int| 0 <= i < rest.len() && (#[trigger] rest[i]).0 == target;
            assert(pending[i + 1].0 == target);
        }
        if exists|i: int| 0 <= i < pending.len() && (#[trigger] pending[i]).0 == target {
            let i = choose|i: int| 0 <= i < pending.len() && (#[trigger] pending[i]).0 == target;
            assert(rest[i - 1].0 == target);
        }
    }
}

proof fn lemma_want(screens: ScreenState, one: (u128, CaptureTarget), out: Seq<Done>)
    requires
        asked_once(screens.pending),
    ensures
        ({
            let r = screens.then_want(one, out).0;
            &&& r.open == screens.open
            &&& r.titles == screens.titles
            &&& asked_once(r.pending)
            &&& served(r, one)
            &&& screens.pending.len() <= r.pending.len() <= screens.pending.len() + 1
            &&& forall|i: int|
                0 <= i < screens.pending.len() ==> #[trigger] r.pending[i] == screens.pending[i]
            &&& forall|i: int|
                screens.pending.len() <= i < r.pending.len() ==> (#[trigger] r.pending[i]).1
                    == one.0
        }),
{
    let r = screens.then_want(one, out).0;
    lemma_asked_for(screens.pending, one.1);
    if !served(screens, one) {
        let n = screens.pending.len() as int;
        assert(r.pending[n] == (one.1, one.0));
        assert forall|i: int, j: int| 0 <= i < j < r.pending.len() implies (
        #[trigger] r.pending[i]).0 != (#[trigger] r.pending[j]).0 by {
            assert(r.pending[i] == screens.pending[i]);
            if j < n {
                assert(r.pending[j] == screens.pending[j]);
            }
        }
    }
}

proof fn lemma_served_stays(a: ScreenState, b: ScreenState, one: (u128, CaptureTarget))
    requires
        a.open == b.open,
        a.pending.len() <= b.pending.len(),
        forall|i: int| 0 <= i < a.pending.len() ==> #[trigger] b.pending[i] == a.pending[i],
        served(a, one),
    ensures
        served(b, one),
{
    lemma_asked_for(a.pending, one.1);
    lemma_asked_for(b.pending, one.1);
    if asked_on(a.pending, one.0) {
        let i = choose|i: int| 0 <= i < a.pending.len() && (#[trigger] a.pending[i]).1 == one.0;
        assert(b.pending[i].1 == one.0);
    }
    if asked_for(a.pending, one.1) is Some {
        let i = choose|i: int| 0 <= i < a.pending.len() && (#[trigger] a.pending[i]).0 == one.1;
        assert(b.pending[i].0 == one.1);
    }
}

proof fn lemma_want_all(
    screens: ScreenState,
    want: Seq<(u128, CaptureTarget)>,
    all: Seq<(u128, CaptureTarget)>,
    out: Seq<Done>,
)
    requires
        asked_once(screens.pending),
        forall|i: int| 0 <= i < want.len() ==> is_wanted(all, (#[trigger] want[i]).0),
    ensures
        ({
            let r = screens.then_want_all(want, out).0;
            &&& r.open == screens.open
            &&& r.titles == screens.titles
            &&& asked_once(r.pending)
            &&& forall|i: int|
                0 <= i < r.pending.len() ==> is_wanted(all, (#[trigger] r.pending[i]).1)
                    || screens.pending.contains(r.pending[i])
            &&& forall|i: int| 0 <= i < want.len() ==> served(r, #[trigger] want[i])
        }),
    decreases want.len(),
{
    if want.len() == 0 {
        assert forall|i: int| 0 <= i < screens.pending.len() implies screens.pending.contains(
            #[trigger] screens.pending[i],
        ) by {}
    } else {
        let init = want.drop_last();
        assert forall|i: int| 0 <= i < init.len() implies is_wanted(
            all,
            (#[trigger] init[i]).0,
        ) by {
            assert(init[i] == want[i]);
        }
        lemma_want_all(screens, init, all, out);
        let (mid, said) = screens.then_want_all(init, out);
        let r = screens.then_want_all(want, out).0;
        lemma_want(mid, want.last(), said);
        assert(want[want.len() - 1] == want.last());
        assert forall|i: int| 0 <= i < r.pending.len() implies is_wanted(
            all,
            (#[trigger] r.pending[i]).1,
        ) || screens.pending.contains(r.pending[i]) by {
            if i < mid.pending.len() {
                assert(r.pending[i] == mid.pending[i]);
            }
        }
        assert forall|i: int| 0 <= i < want.len() implies served(r, #[trigger] want[i]) by {
            if i < init.len() {
                assert(want[i] == init[i]);
                lemma_served_stays(mid, r, want[i]);
            }
        }
    }
}

proof fn lemma_still_asked(pending: Seq<(CaptureTarget, u128)>, want: Seq<(u128, CaptureTarget)>)
    requires
        asked_once(pending),
    ensures
        asked_once(still_asked(pending, want)),
        all_wanted(still_asked(pending, want), want),
        forall|x: (CaptureTarget, u128)| #[trigger]
            still_asked(pending, want).contains(x) <==> (pending.contains(x) && is_wanted(
                want,
                x.1,
            )),
    decreases pending.len(),
{
    if pending.len() > 0 {
        let init = pending.drop_last();
        let last = pending.last();
        assert(asked_once(init));
        lemma_still_asked(init, want);
        let rest = still_asked(init, want);
        let all = still_asked(pending, want);
        assert(pending == init.push(last));
        assert forall|x: (CaptureTarget, u128)| #[trigger]
            all.contains(x) <==> (pending.contains(x) && is_wanted(want, x.1)) by {
            lemma_pair_push(init, last, x);
            lemma_pair_push(rest, last, x);
        }
        if is_wanted(want, last.1) {
            assert forall|i: int, j: int| 0 <= i < j < all.len() implies (#[trigger] all[i]).0 != (
            #[trigger] all[j]).0 by {
                assert(all[i] == rest[i]);
                if j == rest.len() {
                    assert(rest.contains(rest[i]));
                    let k = choose|k: int| 0 <= k < init.len() && init[k] == rest[i];
                    assert(pending[k].0 != pending[pending.len() - 1].0);
                } else {
                    assert(all[j] == rest[j]);
                }
            }
            assert forall|i: int| 0 <= i < all.len() implies is_wanted(
                want,
                (#[trigger] all[i]).1,
            ) by {
                if i < rest.len() {
                    assert(all[i] == rest[i]);
                }
            }
        }
    }
}

proof fn lemma_served_left(
    opened: ScreenState,
    before: Seq<(CaptureTarget, u128)>,
    want: Seq<(u128, CaptureTarget)>,
    one: (u128, CaptureTarget),
)
    requires
        asked_once(opened.pending),
        is_wanted(want, one.0),
        served(opened, one),
        forall|i: int|
            0 <= i < opened.pending.len() ==> is_wanted(want, (#[trigger] opened.pending[i]).1)
                || before.contains(opened.pending[i]),
    ensures
        served(
            ScreenState { pending: still_asked(opened.pending, want), ..opened },
            one,
        ) || abandoned(before, want, one.1),
{
    let left = still_asked(opened.pending, want);
    lemma_still_asked(opened.pending, want);
    lemma_asked_for(opened.pending, one.1);
    lemma_asked_for(left, one.1);
    if asked_on(opened.pending, one.0) {
        let i = choose|i: int|
            0 <= i < opened.pending.len() && (#[trigger] opened.pending[i]).1 == one.0;
        assert(opened.pending.contains(opened.pending[i]));
        assert(left.contains(opened.pending[i]));
        let k = choose|k: int| 0 <= k < left.len() && left[k] == opened.pending[i];
        assert(left[k].1 == one.0);
    }
    if asked_for(opened.pending, one.1) is Some {
        let i = choose|i: int|
            0 <= i < opened.pending.len() && (#[trigger] opened.pending[i]).0 == one.1;
        if is_wanted(want, opened.pending[i].1) {
            assert(opened.pending.contains(opened.pending[i]));
            assert(left.contains(opened.pending[i]));
            let k = choose|k: int| 0 <= k < left.len() && left[k] == opened.pending[i];
            assert(left[k].0 == one.1);
        } else {
            let k = choose|k: int| 0 <= k < before.len() && before[k] == opened.pending[i];
            assert(before[k].0 == one.1 && !is_wanted(want, before[k].1));
        }
    }
}

proof fn lemma_stream_push(open: Seq<Stream>, one: Stream, item: u128)
    ensures
        stream_on(open.push(one), item) == (if stream_on(open, item) is Some {
            stream_on(open, item)
        } else if one.item == item {
            Some(one)
        } else {
            None
        }),
    decreases open.len(),
{
    let all = open.push(one);
    if open.len() == 0 {
        assert(all.drop_first() =~= Seq::<Stream>::empty());
        assert(stream_on(all.drop_first(), item) is None);
    } else {
        assert(all[0] == open[0]);
        assert(all.drop_first() =~= open.drop_first().push(one));
        lemma_stream_push(open.drop_first(), one, item);
    }
}

proof fn lemma_drop(
    screens: ScreenState,
    n: int,
    want: Seq<(u128, CaptureTarget)>,
    out: Seq<Done>,
    item: u128,
)
    requires
        0 <= n <= screens.open.len(),
    ensures
        stream_on(screens.then_drop(n, want, out).0, item) == (if is_wanted(want, item) {
            stream_on(screens.open.take(n), item)
        } else {
            None
        }),
    decreases n,
{
    if n == 0 {
        assert(screens.open.take(0) =~= Seq::<Stream>::empty());
    } else {
        lemma_drop(screens, n - 1, want, out, item);
        let (kept, _, _) = screens.then_drop(n - 1, want, out);
        let one = screens.open[n - 1];
        assert(screens.open.take(n) =~= screens.open.take(n - 1).push(one));
        lemma_stream_push(screens.open.take(n - 1), one, item);
        lemma_stream_push(kept, one, item);
    }
}

/// After the document changed every window and display card that is awake has its stream, or one on
/// its way, or its target on its way elsewhere, unless that was on its way to a card that wants it
/// no more; the cards that are gone or asleep have none, and the others keep theirs. No target is
/// asked for twice, and nothing is waited for in vain.
pub proof fn law_every_screen_card_is_served(
    screens: ScreenState,
    items: Seq<Item<Seq<char>>>,
    out: Seq<Done>,
    item: u128,
)
    requires
        asked_once(screens.pending),
    ensures
        ({
            let r = screens.then_reconcile(items, out).0;
            let want = wanted(items);
            &&& asked_once(r.pending)
            &&& all_wanted(r.pending, want)
            &&& forall|i: int|
                0 <= i < want.len() ==> served(r, #[trigger] want[i]) || abandoned(
                    screens.pending,
                    want,
                    want[i].1,
                )
            &&& stream_on(r.open, item) == (if is_wanted(want, item) {
                stream_on(screens.open, item)
            } else {
                None
            })
        }),
{
    let want = wanted(items);
    let ask = some_untitled(screens.titles, items) && !screens.titles_requested;
    let first = ScreenState { titles_requested: screens.titles_requested || ask, ..screens };
    let said = if ask {
        out.push(screen_req(ScreenRequest::List))
    } else {
        out
    };
    assert forall|i: int| 0 <= i < want.len() implies is_wanted(want, (#[trigger] want[i]).0) by {}
    lemma_want_all(first, want, want, said);
    let (opened, told) = first.then_want_all(want, said);
    lemma_still_asked(opened.pending, want);
    let n = opened.open.len() as int;
    assert(opened.open.take(n) =~= opened.open);
    lemma_drop(opened, n, want, told, item);
    let r = screens.then_reconcile(items, out).0;
    assert forall|i: int| 0 <= i < want.len() implies served(r, #[trigger] want[i]) || abandoned(
        screens.pending,
        want,
        want[i].1,
    ) by {
        assert(is_wanted(want, want[i].0));
        lemma_drop(opened, n, want, told, want[i].0);
        assert(served(opened, want[i]));
        lemma_served_left(opened, screens.pending, want, want[i]);
    }
}

/// A stream that arrives leaves the others that are on their way as they were, each target still
/// asked for once.
pub proof fn law_an_arrival_leaves_the_others_on_their_way(
    screens: ScreenState,
    stream: u64,
    target: CaptureTarget,
    out: Seq<Done>,
    other: CaptureTarget,
)
    requires
        asked_once(screens.pending),
        other != target,
    ensures
        asked_once(screens.then_opened(stream, target, out).0.pending),
        asked_for(screens.then_opened(stream, target, out).0.pending, other) is Some <==> asked_for(
            screens.pending,
            other,
        ) is Some,
{
    lemma_asked_but_once(screens.pending, target);
    lemma_asked_for(screens.pending, other);
    lemma_asked_for(asked_but(screens.pending, target), other);
    let left = asked_but(screens.pending, target);
    if asked_for(screens.pending, other) is Some {
        let i = choose|i: int|
            0 <= i < screens.pending.len() && (#[trigger] screens.pending[i]).0 == other;
        assert(screens.pending.contains(screens.pending[i]));
        assert(left.contains(screens.pending[i]));
        let k = choose|k: int| 0 <= k < left.len() && left[k] == screens.pending[i];
        assert(left[k].0 == other);
    }
    if asked_for(left, other) is Some {
        let i = choose|i: int| 0 <= i < left.len() && (#[trigger] left[i]).0 == other;
        assert(left.contains(left[i]));
        let k = choose|k: int|
            0 <= k < screens.pending.len() && screens.pending[k] == left[i];
        assert(screens.pending[k].0 == other);
    }
}

proof fn lemma_asked_but_once(pending: Seq<(CaptureTarget, u128)>, target: CaptureTarget)
    requires
        asked_once(pending),
    ensures
        asked_once(asked_but(pending, target)),
        forall|x: (CaptureTarget, u128)| #[trigger]
            asked_but(pending, target).contains(x) <==> (pending.contains(x) && x.0 != target),
    decreases pending.len(),
{
    if pending.len() > 0 {
        let init = pending.drop_last();
        let last = pending.last();
        assert(asked_once(init));
        lemma_asked_but_once(init, target);
        let rest = asked_but(init, target);
        let all = asked_but(pending, target);
        assert(pending == init.push(last));
        assert forall|x: (CaptureTarget, u128)| #[trigger]
            all.contains(x) <==> (pending.contains(x) && x.0 != target) by {
            lemma_pair_push(init, last, x);
            lemma_pair_push(rest, last, x);
        }
        if last.0 != target {
            assert forall|i: int, j: int| 0 <= i < j < all.len() implies (#[trigger] all[i]).0 != (
            #[trigger] all[j]).0 by {
                assert(all[i] == rest[i]);
                if j == rest.len() {
                    assert(rest.contains(rest[i]));
                    let k = choose|k: int| 0 <= k < init.len() && init[k] == rest[i];
                    assert(pending[k].0 != pending[pending.len() - 1].0);
                } else {
                    assert(all[j] == rest[j]);
                }
            }
        }
    }
}

proof fn lemma_pair_push(
    s: Seq<(CaptureTarget, u128)>,
    last: (CaptureTarget, u128),
    x: (CaptureTarget, u128),
)
    ensures
        s.push(last).contains(x) <==> (s.contains(x) || x == last),
{
    let all = s.push(last);
    if s.contains(x) {
        let i = choose|i: int| 0 <= i < s.len() && s[i] == x;
        assert(all[i] == x);
    }
    if x == last {
        assert(all[s.len() as int] == x);
    }
    if all.contains(x) {
        let i = choose|i: int| 0 <= i < all.len() && all[i] == x;
        if i < s.len() {
            assert(s[i] == x);
        }
    }
}

} // verus!
