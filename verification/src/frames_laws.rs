//! What the frame probe promises to measure.
use vstd::prelude::*;

use crate::frames::{intervals_in, largest_of, percentile_of, rank, Frames, RING};
use crate::order::{lemma_an_order, lemma_sorted, sorted_of};

verus! {

/// A frame that starts within a quarter of a second of the one before has the time between them as
/// its interval; one after a longer rest, or the first, has none. Every start is counted.
pub proof fn law_an_interval_is_the_time_between_starts(f: Frames, now: nat)
    requires
        f.begun < u64::MAX,
    ensures
        ({
            let next = f.then_begin(now);
            &&& next.last_begin == Some(now) && next.begun == f.begun + 1
            &&& next.open matches Some(open)
            &&& open.0 == now
            &&& f.last_begin is None ==> open.1 is None
            &&& f.last_begin matches Some(last) ==> {
                &&& last <= now && now - last <= 250_000_000 ==> open.1 == Some(
                    (now - last) as nat,
                )
                &&& now - last > 250_000_000 ==> open.1 is None
            }
            &&& next.ring == f.ring && next.frames == f.frames
        }),
{
}

/// A frame that was painted is the last in the ring, with the time it took to draw and its interval;
/// the frames before it stay, but for the oldest where the ring is full.
pub proof fn law_the_ring_keeps_the_last_frames(f: Frames, start: nat, interval: Option<nat>, now: nat)
    requires
        f.open == Some((start, interval)),
        start <= now,
        f.ring.len() <= 1024,
    ensures
        ({
            let next = f.then_end(now);
            &&& next.ring.len() > 0 && next.ring.last() == ((now - start) as nat, interval)
            &&& f.ring.len() < 1024 ==> next.ring.drop_last() == f.ring
            &&& f.ring.len() == 1024 ==> next.ring.drop_last() == f.ring.skip(1)
        }),
{
    assert(f.ring.len() == 1024 ==> f.ring.drop_first() =~= f.ring.skip(1));
    assert(f.then_end(now).ring.drop_last() =~= (if f.ring.len() == 1024 {
        f.ring.drop_first()
    } else {
        f.ring
    }));
}

/// The measured times are those of the frames in the ring, in their order; the measured intervals
/// are those of the frames that have one.
pub proof fn law_what_is_measured_is_what_is_in_the_ring(f: Frames, i: int)
    requires
        0 <= i < f.ring.len(),
        f.ring[i].0 <= i128::MAX,
        forall|k: int|
            0 <= k < f.ring.len() ==> ((#[trigger] f.ring[k]).1 matches Some(gap) ==> gap
                <= i128::MAX),
    ensures
        f.draws().len() == f.ring.len() && f.draws()[i] == f.ring[i].0,
        f.intervals() == f.ring.filter(|s: (nat, Option<nat>)| s.1 is Some).map_values(
            |s: (nat, Option<nat>)| s.1->0 as i128,
        ),
{
    lemma_intervals(f.ring);
}

proof fn lemma_intervals(ring: Seq<(nat, Option<nat>)>)
    ensures
        intervals_in(ring) == ring.filter(|s: (nat, Option<nat>)| s.1 is Some).map_values(
            |s: (nat, Option<nat>)| s.1->0 as i128,
        ),
    decreases ring.len(),
{
    reveal(Seq::filter);
    let pick = |s: (nat, Option<nat>)| s.1 is Some;
    let put = |s: (nat, Option<nat>)| s.1->0 as i128;
    if ring.len() > 0 {
        lemma_intervals(ring.drop_last());
        let init = ring.drop_last().filter(pick);
        assert(init.push(ring.last()).map_values(put) =~= init.map_values(put).push(
            ring.last().1->0 as i128,
        ));
    } else {
        assert(ring.filter(pick).map_values(put) =~= Seq::<i128>::empty());
    }
}

/// A percentile is by nearest rank: of the values in order it is the first that the share of those
/// up to it reaches; the share of those before it does not. The largest is above none.
pub proof fn law_a_percentile_is_the_first_to_reach_its_share(values: Seq<i128>, p: nat)
    requires
        0 < values.len() <= RING,
        1 <= p <= 100,
    ensures
        0 <= rank(values.len(), p) < values.len(),
        100 * rank(values.len(), p) < p * values.len() <= 100 * (rank(values.len(), p) + 1),
        percentile_of(values, p) == sorted_of(values)[rank(values.len(), p)],
        forall|i: int| 0 <= i < values.len() ==> #[trigger] values[i] <= largest_of(values),
        exists|i: int| 0 <= i < values.len() && #[trigger] values[i] == largest_of(values),
{
    let n = values.len();
    assert(n <= n * p <= n * 100) by (nonlinear_arith)
        requires
            1 <= p <= 100,
            n >= 0,
    ;
    assert(n * p == p * n) by (nonlinear_arith);
    lemma_sorted(values);
    let all = sorted_of(values);
    let order = lemma_an_order(values);
    assert forall|i: int| 0 <= i < values.len() implies #[trigger] values[i] <= largest_of(
        values,
    ) by {
        assert(order.contains(i as usize));
        let k = choose|k: int| 0 <= k < order.len() && order[k] == i as usize;
        assert(all[k] == values[i]);
    }
    assert(values.contains(all[all.len() - 1]));
}

} // verus!
