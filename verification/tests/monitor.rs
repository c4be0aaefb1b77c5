use adaptive_brightness::monitor::MonitorState;
use adaptive_brightness::piecewise_linear::PiecewiseLinear;
use adaptive_brightness::scheduler::poll_interval_ms;

fn monitor_with_curve(steps: Vec<(u32, u32)>) -> MonitorState {
    MonitorState::for_display(PiecewiseLinear::from_steps(steps).unwrap())
}

/// Tick once at `lux`, performing the "hardware write" by recording the value;
/// returns the written value, if any.
fn tick_committed(m: &mut MonitorState, lux: u32) -> Option<u16> {
    let w = m.tick(lux);
    if let Some(pct) = w {
        m.record_brightness(pct);
    }
    w
}

#[test]
fn test_new_target_brightness() {
    for new in 46..=54 {
        assert_eq!(50, MonitorState::new_target_brightness(50, new));
    }
    assert_eq!(50, MonitorState::new_target_brightness(0, 54));
    assert_eq!(50, MonitorState::new_target_brightness(100, 46));
    assert_eq!(55, MonitorState::new_target_brightness(50, 55));
    assert_eq!(45, MonitorState::new_target_brightness(50, 45));

    for new in 51..=59 {
        assert_eq!(55, MonitorState::new_target_brightness(55, new));
    }
}

#[test]
fn quantization_fine_granularity_at_low_brightness() {
    // At raw values of 20 or below the granularity is 2 instead of 5.
    for new in 19..=20 {
        assert_eq!(20, MonitorState::new_target_brightness(20, new));
    }
    assert_eq!(20, MonitorState::new_target_brightness(50, 19));
    assert_eq!(18, MonitorState::new_target_brightness(0, 19));
    assert_eq!(20, MonitorState::new_target_brightness(0, 20));
    assert_eq!(20, MonitorState::new_target_brightness(0, 21));
}

#[test]
fn rate_limited_convergence_without_overshoot() {
    // A flat curve asking for 54%: the quantized target is 50, reached from 0
    // in capped steps of 2 with no overshoot, then no further writes.
    let mut m = monitor_with_curve(vec![(0, 54)]);
    let first = tick_committed(&mut m, 0);
    assert_eq!(Some(2), first);

    let mut writes = vec![2u16];
    for _ in 0..100 {
        match tick_committed(&mut m, 0) {
            Some(pct) => writes.push(pct),
            None => break,
        }
    }
    let expected: Vec<u16> = (1..=24).map(|i| 2 * i).chain([50]).collect();
    assert_eq!(expected, writes);
    for pair in writes.windows(2) {
        assert!(pair[1] > pair[0]);
        assert!(pair[1] - pair[0] <= 3);
        assert!(pair[1] <= 50);
    }
    assert_eq!(None, tick_committed(&mut m, 0));
}

#[test]
fn settled_monitor_ticks_return_no_write() {
    // Once the committed brightness equals the quantized target, repeated
    // ticks with an unchanged lux value never ask for a write again.
    let mut m = monitor_with_curve(vec![(0, 10), (250, 100)]);
    while tick_committed(&mut m, 120).is_some() {}
    for _ in 0..10 {
        assert_eq!(None, tick_committed(&mut m, 120));
    }
}

#[test]
fn end_to_end_lux_step_scenario() {
    // Curve (0,10),(250,100); lux goes 0 then 300. The monitor first settles
    // toward 10 and then toward 100, in capped per-tick steps throughout.
    let mut m = monitor_with_curve(vec![(0, 10), (250, 100)]);

    let mut writes = Vec::new();
    for _ in 0..100 {
        match tick_committed(&mut m, 0) {
            Some(pct) => writes.push(pct),
            None => break,
        }
    }
    assert_eq!(vec![2u16, 4, 6, 8, 10], writes);

    let mut writes = Vec::new();
    for _ in 0..100 {
        match tick_committed(&mut m, 300) {
            Some(pct) => writes.push(pct),
            None => break,
        }
    }
    let expected: Vec<u16> = (6..=49).map(|i| 2 * i).chain([100]).collect();
    assert_eq!(expected, writes);
    assert_eq!(None, tick_committed(&mut m, 300));
}

#[test]
fn initial_brightness_is_unquantized_clamped_curve_output() {
    let m = monitor_with_curve(vec![(0, 10), (250, 100)]);
    assert_eq!(10, m.brightness_for_lux(0));
    assert_eq!(46, m.brightness_for_lux(100));
    assert_eq!(100, m.brightness_for_lux(300));

    // Curve outputs above 100 are clamped before any write.
    let m = monitor_with_curve(vec![(0, 250)]);
    assert_eq!(100, m.brightness_for_lux(0));
}

#[test]
fn poll_intervals() {
    assert_eq!(100, poll_interval_ms(true));
    assert_eq!(5000, poll_interval_ms(false));
}
