//! Frame times: how long each frame takes to draw and how evenly frames arrive.
//!
//! [`FrameProbe::begin`] marks the start of a frame and [`FrameProbe::end`] its paint. The span
//! between them is the frame's draw; consecutive starts give the frame interval. A draw that
//! runs past the display period costs the slots it ran through: that is the dropped-frame count.
//! Nothing here touches a clock: the callers pass the moment.
use std::collections::VecDeque;

use vstd::prelude::*;

use crate::double::{
    half_even, lemma_seconds_error, lemma_seconds_mono, lemma_times_floor, lemma_times_once, nearest,
    seconds, seconds_units, times, unit,
};
use crate::order::{lemma_sorted, sorted_of, sorted_values};
use crate::text::{decimal, decimal_tenths, push_decimal, push_tenths};
use crate::time::{gap, Duration, Instant, SECOND, SPAN_END};

verus! {

/// Frames kept for the percentiles: sixteen seconds at 60 Hz, eight at 120 Hz.
pub const RING: usize = 1024;

/// A gap between frames longer than this is the app idling (nothing invalidated): it is left out
/// of the interval percentiles. In nanoseconds.
pub const IDLE: u128 = 250_000_000;

/// The display period to measure against: 120 Hz on iOS, 60 Hz elsewhere, to the nanosecond.
pub fn default_nominal(ios: bool) -> (r: Duration)
    ensures
        ios ==> r@ == 8_333_333,
        !ios ==> r@ == 16_666_667,
{
    if ios {
        Duration::from_nanos(8_333_333)
    } else {
        Duration::from_nanos(16_666_667)
    }
}

/// Percentiles and counters over the last [`RING`] frames.
#[derive(Clone, Copy, PartialEq, Eq, Debug, Default)]
pub struct FrameStats {
    /// Frames drawn since the last reset (all of them, not only those in the ring).
    pub frames: u64,
    /// Frames whose draw took longer than the display period.
    pub over_budget: u64,
    /// Display slots lost to draws that ran past the period (a 30 ms draw at 60 Hz loses one).
    pub dropped: u64,
    /// Draw duration, median.
    pub draw_p50: Duration,
    /// Draw duration, 95th percentile.
    pub draw_p95: Duration,
    /// Draw duration, 99th percentile.
    pub draw_p99: Duration,
    /// Worst draw in the ring.
    pub draw_max: Duration,
    /// Interval between consecutive frames, median.
    pub interval_p50: Duration,
    /// Interval, 95th percentile.
    pub interval_p95: Duration,
    /// Interval, 99th percentile.
    pub interval_p99: Duration,
    /// The display period the counters are measured against.
    pub nominal: Duration,
}

#[derive(Clone, Copy, Debug)]
struct Sample {
    draw: Duration,
    /// Since the previous frame's start; `None` after an idle gap or for the first frame.
    interval: Option<Duration>,
}

/// The ring and its counters.
#[derive(Debug)]
pub struct FrameProbe {
    nominal: Duration,
    ring: VecDeque<Sample>,
    /// The frame being drawn: its start and the interval since the one before.
    open: Option<(Instant, Option<Duration>)>,
    last_begin: Option<Instant>,
    frames: u64,
    over_budget: u64,
    dropped: u64,
    /// Frames begun since the probe was made; never reset, so it can stamp per-frame work.
    begun: u64,
}

/// What a probe knows.
pub struct Frames {
    /// The display period.
    pub nominal: nat,
    /// The last frames: how long each took to draw, and how long after the one before it
    /// started.
    pub ring: Seq<(nat, Option<nat>)>,
    /// The frame being drawn: when it started, and how long after the one before.
    pub open: Option<(nat, Option<nat>)>,
    /// When the last frame started.
    pub last_begin: Option<nat>,
    pub frames: nat,
    pub over_budget: nat,
    pub dropped: nat,
    pub begun: nat,
}

/// `n` as a counter that stops at its end.
pub open spec fn capped(n: nat) -> nat {
    if n <= u64::MAX {
        n
    } else {
        u64::MAX as nat
    }
}

/// `nanos` nanoseconds as a double of seconds, in units.
pub open spec fn as_seconds(nanos: nat) -> nat {
    seconds_units(nanos / SECOND as nat, nanos % SECOND as nat)
}

/// The display slots a draw ran through: how many whole periods it holds, and all there are
/// where there is no period.
pub open spec fn slots_lost(draw: nat, nominal: nat) -> nat {
    if nominal == 0 {
        u64::MAX as nat
    } else {
        capped(times(as_seconds(draw), as_seconds(nominal)))
    }
}

impl Frames {
    /// A frame starts at `now`: the time since the last start is an interval unless it was idle.
    pub open spec fn then_begin(self, now: nat) -> Frames {
        let interval = match self.last_begin {
            Some(last) => if gap(last, now) <= IDLE {
                Some(gap(last, now))
            } else {
                None
            },
            None => None,
        };
        Frames {
            last_begin: Some(now),
            open: Some((now, interval)),
            begun: if self.begun == u64::MAX {
                0
            } else {
                self.begun + 1
            },
            ..self
        }
    }

    /// The frame that is open is painted at `now`: it enters the ring, from which the oldest
    /// falls when it is full. Without an open frame nothing changes.
    pub open spec fn then_end(self, now: nat) -> Frames {
        match self.open {
            None => self,
            Some((start, interval)) => {
                let draw = gap(start, now);
                let over = draw > self.nominal;
                let kept = if self.ring.len() == RING {
                    self.ring.drop_first()
                } else {
                    self.ring
                };
                Frames {
                    ring: kept.push((draw, interval)),
                    open: None,
                    frames: capped(self.frames + 1),
                    over_budget: if over {
                        capped(self.over_budget + 1)
                    } else {
                        self.over_budget
                    },
                    dropped: if over {
                        capped(self.dropped + slots_lost(draw, self.nominal))
                    } else {
                        self.dropped
                    },
                    ..self
                }
            },
        }
    }

    /// Everything forgotten but the period and the count of frames begun.
    pub open spec fn then_reset(self) -> Frames {
        Frames {
            ring: Seq::empty(),
            open: None,
            last_begin: None,
            frames: 0,
            over_budget: 0,
            dropped: 0,
            ..self
        }
    }

    /// How long the frames in the ring took to draw.
    pub open spec fn draws(self) -> Seq<i128> {
        self.ring.map_values(|s: (nat, Option<nat>)| s.0 as i128)
    }

    /// The intervals in the ring.
    pub open spec fn intervals(self) -> Seq<i128> {
        intervals_in(self.ring)
    }
}

/// The intervals of `ring`, in their order.
pub open spec fn intervals_in(ring: Seq<(nat, Option<nat>)>) -> Seq<i128>
    decreases ring.len(),
{
    if ring.len() == 0 {
        Seq::empty()
    } else {
        match ring.last().1 {
            Some(gap) => intervals_in(ring.drop_last()).push(gap as i128),
            None => intervals_in(ring.drop_last()),
        }
    }
}

/// The place of the `p`-th percentile of `n` values in order, by nearest rank.
pub open spec fn rank(n: nat, p: nat) -> int {
    (n * p + 99) / 100 - 1
}

/// The `p`-th percentile of `values` by nearest rank; nothing of no values.
pub open spec fn percentile_of(values: Seq<i128>, p: nat) -> int {
    if values.len() == 0 {
        0
    } else {
        sorted_of(values)[rank(values.len(), p)] as int
    }
}

/// The largest of `values`; nothing of no values.
pub open spec fn largest_of(values: Seq<i128>) -> int {
    if values.len() == 0 {
        0
    } else {
        sorted_of(values).last() as int
    }
}

impl Sample {
    spec fn said(self) -> (nat, Option<nat>) {
        (self.draw@, viewed(self.interval))
    }
}

/// The span that `d` holds.
pub open spec fn viewed(d: Option<Duration>) -> Option<nat> {
    match d {
        Some(d) => Some(d@),
        None => None,
    }
}

impl View for FrameProbe {
    type V = Frames;

    closed spec fn view(&self) -> Frames {
        Frames {
            nominal: self.nominal@,
            ring: self.ring@.map_values(|s: Sample| s.said()),
            open: match self.open {
                Some((start, interval)) => Some((start@, viewed(interval))),
                None => None,
            },
            last_begin: match self.last_begin {
                Some(at) => Some(at@),
                None => None,
            },
            frames: self.frames as nat,
            over_budget: self.over_budget as nat,
            dropped: self.dropped as nat,
            begun: self.begun as nat,
        }
    }
}

impl FrameProbe {
    /// The ring holds the last [`RING`] frames at most.
    #[verifier::type_invariant]
    spec fn wf(self) -> bool {
        self.ring@.len() <= RING
    }

    /// A probe measured against `nominal` (the display period).
    pub fn new(nominal: Duration) -> (r: FrameProbe)
        ensures
            r@ == (Frames {
                nominal: nominal@,
                ring: Seq::empty(),
                open: None,
                last_begin: None,
                frames: 0,
                over_budget: 0,
                dropped: 0,
                begun: 0,
            }),
    {
        let r = FrameProbe {
            nominal,
            ring: VecDeque::with_capacity(RING),
            open: None,
            last_begin: None,
            frames: 0,
            over_budget: 0,
            dropped: 0,
            begun: 0,
        };
        assert(r@.ring == Seq::<(nat, Option<nat>)>::empty());
        r
    }

    /// The display period.
    pub fn nominal(&self) -> (r: Duration)
        ensures
            r@ == self@.nominal,
    {
        self.nominal
    }

    /// A frame starts drawing.
    pub fn begin(&mut self, now: Instant)
        ensures
            final(self)@ == old(self)@.then_begin(now@),
    {
        proof {
            use_type_invariant(&*self);
        }
        let interval: Option<Duration> = match self.last_begin {
            Some(last) => {
                let gap = now.saturating_duration_since(last);
                if gap.as_nanos() <= IDLE {
                    Some(gap)
                } else {
                    None
                }
            },
            None => None,
        };
        self.last_begin = Some(now);
        self.open = Some((now, interval));
        self.begun = self.begun.wrapping_add(1);
    }

    /// Frames begun so far (never reset).
    pub fn index(&self) -> (r: u64)
        ensures
            r == self@.begun,
    {
        self.begun
    }

    /// The frame that began last has been painted.
    pub fn end(&mut self, now: Instant)
        ensures
            final(self)@ == old(self)@.then_end(now@),
    {
        proof {
            use_type_invariant(&*self);
        }
        match self.open {
            None => {},
            Some((start, interval)) => {
                self.open = None;
                let draw = now.saturating_duration_since(start);
                self.frames = self.frames.saturating_add(1);
                if self.nominal.shorter_than(draw) {
                    self.over_budget = self.over_budget.saturating_add(1);
                    // Slots the display showed the old picture in while this draw ran.
                    let lost: u64 = lost_slots(draw, self.nominal);
                    self.dropped = self.dropped.saturating_add(lost);
                }
                let ghost was = self.ring@;
                let mut ring: VecDeque<Sample> = VecDeque::new();
                std::mem::swap(&mut ring, &mut self.ring);
                if ring.len() == RING {
                    ring.pop_front();
                }
                let ghost kept = ring@;
                let sample = Sample { draw, interval };
                ring.push_back(sample);
                self.ring = ring;
                proof {
                    let f = |s: Sample| s.said();
                    assert(kept.map_values(f) == if was.len() == RING {
                        was.map_values(f).drop_first()
                    } else {
                        was.map_values(f)
                    });
                    assert(self.ring@.map_values(f) == kept.map_values(f).push(sample.said()));
                }
            },
        }
    }

    /// Forget everything; the next frame starts a new window (no interval).
    pub fn reset(&mut self)
        ensures
            final(self)@ == old(self)@.then_reset(),
    {
        self.ring = VecDeque::with_capacity(RING);
        self.open = None;
        self.last_begin = None;
        self.frames = 0;
        self.over_budget = 0;
        self.dropped = 0;
        assert(self@.ring == Seq::<(nat, Option<nat>)>::empty());
    }

    /// The counters plus the ring's percentiles.
    pub fn stats(&self) -> (r: FrameStats)
        ensures
            r.frames == self@.frames,
            r.over_budget == self@.over_budget,
            r.dropped == self@.dropped,
            r.draw_p50@ == percentile_of(self@.draws(), 50),
            r.draw_p95@ == percentile_of(self@.draws(), 95),
            r.draw_p99@ == percentile_of(self@.draws(), 99),
            r.draw_max@ == largest_of(self@.draws()),
            r.interval_p50@ == percentile_of(self@.intervals(), 50),
            r.interval_p95@ == percentile_of(self@.intervals(), 95),
            r.interval_p99@ == percentile_of(self@.intervals(), 99),
            r.nominal@ == self@.nominal,
    {
        proof {
            use_type_invariant(self);
        }
        let mut draws: Vec<i128> = Vec::new();
        let mut intervals: Vec<i128> = Vec::new();
        let mut i: usize = 0;
        assert(self@.ring.take(0) == Seq::<(nat, Option<nat>)>::empty());
        while i < self.ring.len()
            invariant
                i <= self.ring@.len(),
                draws@ == self@.draws().take(i as int),
                intervals@ == intervals_in(self@.ring.take(i as int)),
                intervals@.len() <= i,
                forall|k: int| 0 <= k < draws@.len() ==> 0 <= #[trigger] draws@[k] < SPAN_END,
                forall|k: int|
                    0 <= k < intervals@.len() ==> 0 <= #[trigger] intervals@[k] < SPAN_END,
            decreases self.ring.len() - i,
        {
            let sample = self.ring[i];
            proof {
                let some = self@.ring.take(i + 1);
                assert(some.drop_last() == self@.ring.take(i as int));
                assert(some.last() == sample.said());
                assert(self@.draws().take(i + 1) == self@.draws().take(i as int).push(
                    self@.draws()[i as int],
                ));
                assert(self@.draws()[i as int] == sample.draw@ as i128);
            }
            draws.push(sample.draw.as_nanos() as i128);
            if let Some(gap) = sample.interval {
                intervals.push(gap.as_nanos() as i128);
            }
            i += 1;
        }
        proof {
            assert(self@.ring.take(i as int) == self@.ring);
            assert(self@.draws().take(i as int) == self@.draws());
        }
        let draw = sorted_values(&draws);
        let interval = sorted_values(&intervals);
        proof {
            assert forall|k: int| 0 <= k < draw@.len() implies 0 <= #[trigger] draw@[k]
                < SPAN_END by {
                assert(draws@.contains(draw@[k]));
            }
            assert forall|k: int| 0 <= k < interval@.len() implies 0 <= #[trigger] interval@[k]
                < SPAN_END by {
                assert(intervals@.contains(interval@[k]));
            }
        }
        let draw_max = if draw.len() == 0 {
            Duration::zero()
        } else {
            span_of(draw[draw.len() - 1])
        };
        FrameStats {
            frames: self.frames,
            over_budget: self.over_budget,
            dropped: self.dropped,
            draw_p50: percentile(&draw, 50),
            draw_p95: percentile(&draw, 95),
            draw_p99: percentile(&draw, 99),
            draw_max,
            interval_p50: percentile(&interval, 50),
            interval_p95: percentile(&interval, 95),
            interval_p99: percentile(&interval, 99),
            nominal: self.nominal,
        }
    }
}

/// A count of nanoseconds as a span.
fn span_of(nanos: i128) -> (r: Duration)
    requires
        0 <= nanos < SPAN_END,
    ensures
        r@ == nanos,
{
    Duration::of_nanos(nanos as u128)
}

/// The display slots a draw ran through.
fn lost_slots(draw: Duration, nominal: Duration) -> (r: u64)
    requires
        draw@ > nominal@,
    ensures
        r == slots_lost(draw@, nominal@),
{
    let a = seconds(draw.as_secs(), draw.subsec_nanos());
    let b = seconds(nominal.as_secs(), nominal.subsec_nanos());
    a.times_in(b)
}

/// The `p`-th percentile of values in order, by nearest rank.
fn percentile(sorted: &Vec<i128>, p: usize) -> (r: Duration)
    requires
        1 <= p <= 100,
        sorted@.len() <= RING,
        forall|k: int| 0 <= k < sorted@.len() ==> 0 <= #[trigger] sorted@[k] < SPAN_END,
    ensures
        sorted@.len() == 0 ==> r@ == 0,
        sorted@.len() > 0 ==> r@ == sorted@[rank(sorted@.len(), p as nat)],
        sorted@.len() > 0 ==> 0 <= rank(sorted@.len(), p as nat) < sorted@.len(),
{
    if sorted.len() == 0 {
        return Duration::zero();
    }
    let n: usize = sorted.len();
    assert(n * p <= n * 100 && n * p >= n) by (nonlinear_arith)
        requires
            1 <= p <= 100,
            n >= 1,
    ;
    let at: usize = (n * p + 99) / 100 - 1;
    span_of(sorted[at])
}

/// A span in milliseconds as its label prints it: through doubles, rounded to a tenth.
pub open spec fn millis_tenths(nanos: nat) -> nat {
    half_even(nearest(as_seconds(nanos) * 1000, unit()) * 10, unit())
}

/// Adds `d` in milliseconds to the end of `out`, with one digit behind the point.
fn push_millis(out: &mut String, d: Duration)
    ensures
        final(out)@ == old(out)@ + decimal_tenths(millis_tenths(d@)),
{
    let ms = seconds(d.as_secs(), d.subsec_nanos()).thousandfold();
    push_tenths(out, ms.tenths());
}

/// The overlay's line.
pub open spec fn hud_text(s: FrameStats) -> Seq<char> {
    "ui draw "@ + decimal_tenths(millis_tenths(s.draw_p50@)) + " / "@ + decimal_tenths(
        millis_tenths(s.draw_p95@),
    ) + " / "@ + decimal_tenths(millis_tenths(s.draw_p99@)) + " ms (max "@ + decimal_tenths(
        millis_tenths(s.draw_max@),
    ) + ")  ·  every "@ + decimal_tenths(millis_tenths(s.interval_p50@)) + " / "@ + decimal_tenths(
        millis_tenths(s.interval_p95@),
    ) + " ms  ·  "@ + decimal(s.frames as nat) + " frames, "@ + decimal(s.over_budget as nat)
        + " over "@ + decimal_tenths(millis_tenths(s.nominal@)) + " ms, "@ + decimal(
        s.dropped as nat,
    ) + " dropped"@
}

/// One line for the stats overlay: draw percentiles, cadence and the two counters.
pub fn hud_line(stats: Option<&FrameStats>) -> (r: String)
    ensures
        match stats {
            Some(s) => r@ == hud_text(*s),
            None => r@ == "ui –"@,
        },
{
    match stats {
        None => String::from_str("ui –"),
        Some(s) => {
            let mut out = String::from_str("ui draw ");
            push_millis(&mut out, s.draw_p50);
            out.append(" / ");
            push_millis(&mut out, s.draw_p95);
            out.append(" / ");
            push_millis(&mut out, s.draw_p99);
            out.append(" ms (max ");
            push_millis(&mut out, s.draw_max);
            out.append(")  ·  every ");
            push_millis(&mut out, s.interval_p50);
            out.append(" / ");
            push_millis(&mut out, s.interval_p95);
            out.append(" ms  ·  ");
            push_decimal(&mut out, s.frames as u128);
            out.append(" frames, ");
            push_decimal(&mut out, s.over_budget as u128);
            out.append(" over ");
            push_millis(&mut out, s.nominal);
            out.append(" ms, ");
            push_decimal(&mut out, s.dropped as u128);
            out.append(" dropped");
            out
        },
    }
}

/// What a probe holds at all times: a ring of [`RING`] frames at most, no interval as long as an
/// idle gap, no more frames over budget than frames, and a slot lost for each of those.
pub open spec fn sound(f: Frames) -> bool {
    &&& f.ring.len() <= RING
    &&& f.over_budget <= f.frames
    &&& f.over_budget <= f.dropped
    &&& forall|i: int| 0 <= i < f.ring.len() ==> short((#[trigger] f.ring[i]).1)
    &&& f.open matches Some((_, interval)) ==> short(interval)
}

/// An interval that is no idle gap.
pub open spec fn short(interval: Option<nat>) -> bool {
    interval matches Some(gap) ==> gap <= IDLE
}

/// The seconds that a double holds exactly end here, hundreds of millions of years on.
pub const EXACT: u64 = 0x20_0000_0000_0000;

/// Whatever a probe is told, its ring holds [`RING`] frames at most, an idle gap is never an
/// interval, no more frames are over budget than were drawn, and each of those lost a slot at
/// least.
pub proof fn law_a_probe_stays_sound(f: Frames, now: nat)
    requires
        sound(f),
        f.frames <= u64::MAX,
        now / (SECOND as nat) < EXACT,
    ensures
        sound(f.then_begin(now)),
        sound(f.then_end(now)),
        sound(f.then_reset()),
{
    if let Some((start, _)) = f.open {
        let draw = gap(start, now);
        if draw > f.nominal {
            lemma_a_slot_is_lost(draw, f.nominal);
        }
    }
}

/// A draw past the period loses a slot at least.
proof fn lemma_a_slot_is_lost(draw: nat, nominal: nat)
    requires
        nominal < draw,
        draw / (SECOND as nat) < EXACT,
    ensures
        slots_lost(draw, nominal) >= 1,
{
    if nominal > 0 {
        let (s, n) = (draw / SECOND as nat, draw % SECOND as nat);
        let (t, m) = (nominal / SECOND as nat, nominal % SECOND as nat);
        assert(t < s || (t == s && m <= n));
        lemma_seconds_mono(t, m, s, n);
        lemma_seconds_error(t, m);
        lemma_times_once(as_seconds(draw), as_seconds(nominal));
    }
}

/// Doubles of seconds tell a draw from every whole multiple of the period: it is further from each
/// than `2^-51` of itself, as any draw under `2^51` nanoseconds is that is no multiple.
pub open spec fn told_from_multiples(draw: nat, nominal: nat) -> bool {
    &&& draw / (SECOND as nat) < EXACT
    &&& draw < 0x8_0000_0000_0000 * (draw % nominal)
    &&& draw < 0x8_0000_0000_0000 * (nominal - draw % nominal)
}

/// The end of a frame counts it once. A draw past the period is over budget and loses as many slots
/// as whole periods went by, one at least; any other loses none. The period and the count of frames
/// begun stay. (The slots are counted through doubles of seconds, which do not tell a draw from a
/// whole multiple of the period that is within some `2^-51` of it: one that is such a multiple can
/// come out one short.)
pub proof fn law_an_end_counts_the_frame(f: Frames, now: nat)
    requires
        f.open is Some,
        f.nominal > 0,
        f.frames < u64::MAX,
        f.over_budget < u64::MAX,
        f.dropped + gap((f.open->0).0, now) / f.nominal <= u64::MAX,
        gap((f.open->0).0, now) > f.nominal ==> told_from_multiples(
            gap((f.open->0).0, now),
            f.nominal,
        ),
    ensures
        ({
            let draw = gap((f.open->0).0, now);
            let r = f.then_end(now);
            &&& r.frames == f.frames + 1
            &&& draw > f.nominal ==> {
                &&& r.over_budget == f.over_budget + 1
                &&& r.dropped == f.dropped + draw / f.nominal
                &&& draw / f.nominal >= 1
            }
            &&& draw <= f.nominal ==> r.over_budget == f.over_budget && r.dropped == f.dropped
            &&& r.open is None
            &&& r.begun == f.begun
            &&& r.nominal == f.nominal
        }),
{
    let draw = gap((f.open->0).0, now);
    if draw > f.nominal {
        lemma_times_floor(draw, f.nominal);
        lemma_a_slot_is_lost(draw, f.nominal);
    }
}

/// The percentiles ascend: the median is no more than the 95th percentile, that no more than the
/// 99th, and that no more than the largest value.
pub proof fn law_percentiles_ascend(values: Seq<i128>)
    requires
        values.len() <= RING,
        forall|i: int| 0 <= i < values.len() ==> #[trigger] values[i] >= 0,
    ensures
        0 <= percentile_of(values, 50) <= percentile_of(values, 95) <= percentile_of(values, 99)
            <= largest_of(values),
{
    lemma_sorted(values);
    if values.len() > 0 {
        let n = values.len();
        assert(0 <= rank(n, 50) <= rank(n, 95) <= rank(n, 99) < n);
        assert(values.contains(sorted_of(values)[rank(n, 50)]));
    }
}

/// A percentile by nearest rank is a value that at least that share of the values do not exceed.
pub proof fn law_percentile_is_a_value(values: Seq<i128>, p: nat)
    requires
        0 < values.len() <= RING,
        1 <= p <= 100,
    ensures
        0 <= rank(values.len(), p) < values.len(),
        exists|i: int| 0 <= i < values.len() && #[trigger] values[i] == percentile_of(values, p),
        100 * (rank(values.len(), p) + 1) >= p * values.len(),
        forall|k: int|
            0 <= k <= rank(values.len(), p) ==> #[trigger] sorted_of(values)[k] <= percentile_of(
                values,
                p,
            ),
{
    let n = values.len();
    assert(n <= n * p <= n * 100) by (nonlinear_arith)
        requires
            1 <= p <= 100,
            n >= 0,
    ;
    assert(n * p == p * n) by (nonlinear_arith);
    lemma_sorted(values);
    assert(values.contains(sorted_of(values)[rank(n, p)]));
}

/// After a reset the counters and percentiles say nothing, whatever they said before, and the
/// count of frames begun goes on.
pub proof fn law_reset_starts_over(f: Frames, p: nat)
    ensures
        f.then_reset().frames == 0,
        f.then_reset().over_budget == 0,
        f.then_reset().dropped == 0,
        percentile_of(f.then_reset().draws(), p) == 0,
        percentile_of(f.then_reset().intervals(), p) == 0,
        largest_of(f.then_reset().draws()) == 0,
        f.then_reset().begun == f.begun,
        f.then_reset().nominal == f.nominal,
{
}

/// No interval reaches across a reset: the first frame after it has none.
pub proof fn law_no_interval_across_a_reset(f: Frames, start: nat, end: nat)
    ensures
        f.then_reset().then_begin(start).then_end(end).intervals() == Seq::<i128>::empty(),
{
    reveal_with_fuel(intervals_in, 2);
    let g = f.then_reset().then_begin(start).then_end(end);
    assert(g.ring.drop_last() == Seq::<(nat, Option<nat>)>::empty());
}

/// A frame that was never begun does not count.
pub proof fn law_an_end_without_a_begin_is_ignored(f: Frames, now: nat)
    requires
        f.open is None,
    ensures
        f.then_end(now) == f,
{
}

} // verus!
