//! The frame probe.
use slopty_ui::frames::{default_nominal, hud_line, FrameProbe, FrameStats, RING};
use slopty_ui::time::{Duration, Instant};

fn frame() -> Duration {
    Duration::from_micros(16_667)
}

fn ms(n: u64) -> Duration {
    Duration::from_millis(n)
}

fn start() -> Instant {
    Instant::at(Duration::from_secs(1_000))
}

/// `n` frames at a steady cadence, each drawn in `draw`.
fn steady(probe: &mut FrameProbe, t0: Instant, n: u32, draw: Duration) -> Instant {
    let mut t = t0;
    for _ in 0..n {
        probe.begin(t);
        probe.end(t.after(draw));
        t = t.after(frame());
    }
    t
}

#[test]
fn a_steady_run_has_no_drops_and_reports_its_draw_and_interval() {
    let mut probe = FrameProbe::new(frame());
    let t0 = start();
    steady(&mut probe, t0, 300, ms(4));
    let s = probe.stats();
    assert_eq!(s.frames, 300);
    assert_eq!(s.dropped, 0);
    assert_eq!(s.over_budget, 0);
    assert_eq!(s.draw_p50, ms(4));
    assert_eq!(s.draw_p99, ms(4));
    assert_eq!(s.draw_max, ms(4));
    assert_eq!(s.interval_p50, frame());
    assert_eq!(s.interval_p99, frame());
    assert_eq!(s.nominal, frame());
}

#[test]
fn a_slow_frame_counts_over_budget_and_the_slot_it_ran_through_is_a_drop() {
    let mut probe = FrameProbe::new(frame());
    let t0 = start();
    let t = steady(&mut probe, t0, 100, ms(4));
    // One 30 ms draw: the next frame can only start two periods later.
    probe.begin(t);
    probe.end(t.after(ms(30)));
    let t = t.after(frame()).after(frame());
    steady(&mut probe, t, 100, ms(4));
    let s = probe.stats();
    assert_eq!(s.frames, 201);
    assert_eq!(s.over_budget, 1);
    assert_eq!(s.dropped, 1, "{s:?}");
    assert_eq!(s.draw_max, ms(30));
    assert_eq!(s.draw_p50, ms(4));
    assert_eq!(s.draw_p99, ms(4), "1 of 201 is below the top 1 % (nearest rank)");
    assert_eq!(s.interval_p99, frame(), "one long interval in 200 is below the top 1 %");
}

#[test]
fn an_idle_gap_is_not_an_interval() {
    let mut probe = FrameProbe::new(frame());
    let t0 = start();
    let t = steady(&mut probe, t0, 10, ms(2));
    let t = t.after(Duration::from_secs(3));
    steady(&mut probe, t, 10, ms(2));
    let s = probe.stats();
    assert_eq!(s.frames, 20);
    assert_eq!(s.dropped, 0);
    assert_eq!(s.interval_p99, frame(), "the 3 s gap is not in the ring");
}

#[test]
fn the_ring_forgets_and_reset_starts_over() {
    let mut probe = FrameProbe::new(frame());
    let t0 = start();
    let t = steady(&mut probe, t0, 5, ms(40));
    // 40 ms draws every 16.7 ms is impossible on a display, but the ring does not care.
    steady(&mut probe, t, RING as u32, ms(3));
    let s = probe.stats();
    assert_eq!(s.draw_max, ms(3), "the slow start fell out of the ring");
    assert_eq!(s.frames, 5 + RING as u64, "the counter keeps every frame");
    assert_eq!(s.over_budget, 5);
    assert_eq!(s.dropped, 10, "each 40 ms draw ran through two 16.7 ms slots");
    probe.reset();
    let s = probe.stats();
    assert_eq!(s, FrameStats { nominal: frame(), ..FrameStats::default() });
    probe.begin(t0);
    probe.end(t0.after(ms(1)));
    assert_eq!(probe.stats().interval_p50, Duration::zero(), "no interval across a reset");
}

#[test]
fn an_end_without_a_begin_is_ignored() {
    let mut probe = FrameProbe::new(frame());
    probe.end(start());
    assert_eq!(probe.stats().frames, 0);
}

#[test]
fn the_hud_line_reads_the_numbers_back() {
    assert_eq!(hud_line(None), "ui –");
    let mut probe = FrameProbe::new(frame());
    steady(&mut probe, start(), 60, ms(5));
    let line = hud_line(Some(&probe.stats()));
    assert!(line.starts_with("ui draw 5.0 / 5.0 / 5.0 ms (max 5.0)"), "{line}");
    assert!(line.contains("every 16.7 / 16.7 ms"), "{line}");
    assert!(line.ends_with("60 frames, 0 over 16.7 ms, 0 dropped"), "{line}");
}

#[test]
fn a_frame_has_its_number_and_its_period() {
    let mut probe = FrameProbe::new(frame());
    assert_eq!(probe.index(), 0);
    probe.begin(start());
    assert_eq!(probe.index(), 1);
    assert_eq!(probe.nominal(), frame());
    assert_eq!(default_nominal(true).as_nanos(), 8_333_333);
    assert_eq!(default_nominal(false).as_nanos(), 16_666_667);
}

#[test]
fn percentiles_ascend() {
    let mut probe = FrameProbe::new(frame());
    let mut t = start();
    for n in 1..=100 {
        t = steady(&mut probe, t, 1, ms(n));
    }
    let s = probe.stats();
    assert!(s.draw_p50.as_nanos() <= s.draw_p95.as_nanos());
    assert!(s.draw_p95.as_nanos() <= s.draw_p99.as_nanos());
    assert!(s.draw_p99.as_nanos() <= s.draw_max.as_nanos());
    assert_eq!(s.draw_max, ms(100));
}

#[test]
fn only_a_gap_longer_than_idle_is_left_out() {
    let mut probe = FrameProbe::new(frame());
    let t0 = start();
    probe.begin(t0);
    probe.end(t0.after(ms(1)));
    probe.begin(t0.after(ms(250)));
    probe.end(t0.after(ms(251)));
    assert_eq!(probe.stats().interval_p50, ms(250));
    probe.begin(t0.after(ms(501)));
    probe.end(t0.after(ms(502)));
    assert_eq!(probe.stats().interval_p99, ms(250), "a longer one is no interval");
}

#[test]
fn the_slots_lost_are_the_whole_periods_of_the_draw() {
    for (draw, lost) in [(17, 1), (33, 1), (34, 2), (100, 5), (10_000, 599)] {
        let mut probe = FrameProbe::new(frame());
        let t0 = start();
        probe.begin(t0);
        probe.end(t0.after(ms(draw)));
        let s = probe.stats();
        assert_eq!((s.frames, s.over_budget, s.dropped), (1, 1, lost), "{draw} ms");
    }
}

#[test]
fn a_draw_of_weeks_is_still_told_from_a_multiple_of_the_period() {
    let period: u64 = 16_667_000;
    let many: u64 = 135_000_000;
    for (draw, lost) in [
        (period * many - 1, many - 1),
        (period * many + 1, many),
        (period * 1_000 * many + period / 2, 1_000 * many),
    ] {
        let mut probe = FrameProbe::new(frame());
        let t0 = start();
        probe.begin(t0);
        probe.end(t0.after(Duration::from_nanos(draw)));
        assert_eq!(probe.stats().dropped, lost, "{draw} ns");
    }
}
