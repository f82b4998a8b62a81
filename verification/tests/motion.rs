use radiolocate::motion::{MotionConfig, MotionDetector};

#[test]
fn standard_config() {
    let cfg = MotionConfig::standard();
    assert_eq!(cfg.window, 25);
    assert_eq!(cfg.threshold_num, 7);
    assert_eq!(cfg.threshold_den, 2);
}

#[test]
fn steady_signal_never_triggers() {
    let mut d = MotionDetector::new(MotionConfig::standard());
    for _ in 0..100 {
        assert!(!d.feed(-50));
    }
    assert_eq!(d.window.len(), 25);
}

#[test]
fn spike_triggers_once_and_clears_window() {
    let mut d = MotionDetector::new(MotionConfig::standard());
    // 25 identical values: variance 0, no trigger.
    for _ in 0..25 {
        assert!(!d.feed(-50));
    }
    // One sample 10 dBm up: window variance 3.84 exceeds 3.5.
    assert!(d.feed(-40));
    assert_eq!(d.window.len(), 0);
    // The next sample lands in a fresh window: no repeated trigger.
    assert!(!d.feed(-50));
    assert_eq!(d.window.len(), 1);
}

#[test]
fn no_trigger_before_window_fills() {
    let mut d = MotionDetector::new(MotionConfig::standard());
    // Wildly varying samples, but fewer than the window capacity.
    for i in 0..24 {
        let x = if i % 2 == 0 { -30 } else { -90 };
        assert!(!d.feed(x));
    }
    assert_eq!(d.window.len(), 24);
}

#[test]
fn variance_just_below_threshold_stays_quiet() {
    // A lone sample d away from 24 equal ones gives variance 0.0384 * d^2:
    // d = 9 gives 3.1104 (below 3.5, quiet), d = 10 gives 3.84 (fires).
    let mut d = MotionDetector::new(MotionConfig::standard());
    for _ in 0..24 {
        assert!(!d.feed(-50));
    }
    assert!(!d.feed(-59));
    assert_eq!(d.window.len(), 25);

    let mut e = MotionDetector::new(MotionConfig::standard());
    for _ in 0..24 {
        assert!(!e.feed(-50));
    }
    assert!(e.feed(-60));
    assert_eq!(e.window.len(), 0);
}

#[test]
fn window_slides_fifo() {
    let cfg = MotionConfig { window: 3, threshold_num: 1000000, threshold_den: 1 };
    let mut d = MotionDetector::new(cfg);
    d.feed(-10);
    d.feed(-20);
    d.feed(-30);
    d.feed(-40);
    let w: Vec<i8> = d.window.iter().copied().collect();
    assert_eq!(w, vec![-20, -30, -40]);
}
