use hddfancontrol::{
    raw_from_speed, speed_from_raw, Calibration, CalibrationStep, Fan, PwmCommand, Speed,
    Thresholds,
};

fn pct(p: u32) -> Speed {
    Speed::from_percent(p).unwrap()
}

#[test]
fn raw_conversion_rounds_to_nearest() {
    assert_eq!(raw_from_speed(Speed::stopped(), 255), 0);
    assert_eq!(raw_from_speed(Speed::full(), 255), 255);
    assert_eq!(raw_from_speed(pct(50), 255), 128);
    assert_eq!(raw_from_speed(pct(20), 255), 51);
    assert_eq!(raw_from_speed(pct(60), 100), 60);
}

#[test]
fn raw_round_trip_within_one_step() {
    for max_raw in [1u8, 7, 100, 255] {
        let mut m: u32 = 0;
        while m <= 1_000_000 {
            let speed = Speed::from_millionths(m).unwrap();
            let raw = raw_from_speed(speed, max_raw);
            assert!(raw <= max_raw);
            let back = f64::from(raw) / f64::from(max_raw);
            let s = f64::from(m) / 1_000_000.0;
            assert!((back - s).abs() <= 1.0 / f64::from(max_raw) + 1e-12);
            m += 9_973;
        }
    }
}

#[test]
fn speed_from_raw_rounds() {
    assert_eq!(speed_from_raw(0, 255), Speed::stopped());
    assert_eq!(speed_from_raw(255, 255), Speed::full());
    assert_eq!(speed_from_raw(80, 255).millionths(), 313_725);
    assert_eq!(speed_from_raw(40, 255).millionths(), 156_863);
}

#[test]
fn stopped_fan_is_kicked_at_start_speed() {
    let t = Thresholds::new(pct(40), pct(10)).unwrap();
    let mut fan = Fan::new(t, 255, 0);
    let cmds = fan.set_speed(pct(20));
    assert_eq!(
        cmds,
        vec![PwmCommand::EnableManual, PwmCommand::Write(102), PwmCommand::Write(51)]
    );
    assert!(fan.manual);
    assert!(!fan.stopped);
    let cmds = fan.set_speed(pct(20));
    assert_eq!(cmds, vec![PwmCommand::Write(51)]);
}

#[test]
fn running_fan_is_not_kicked() {
    let t = Thresholds::new(pct(40), pct(10)).unwrap();
    let mut fan = Fan::new(t, 255, 90);
    assert_eq!(fan.set_speed(pct(20)), vec![PwmCommand::EnableManual, PwmCommand::Write(51)]);
}

#[test]
fn stop_then_restart_kicks_again() {
    let t = Thresholds::new(pct(40), pct(10)).unwrap();
    let mut fan = Fan::new(t, 255, 90);
    assert_eq!(fan.set_speed(Speed::stopped()), vec![PwmCommand::EnableManual, PwmCommand::Write(0)]);
    assert!(fan.stopped);
    assert_eq!(fan.set_speed(pct(20)), vec![PwmCommand::Write(102), PwmCommand::Write(51)]);
    assert_eq!(fan.set_speed(Speed::stopped()), vec![PwmCommand::Write(0)]);
    assert_eq!(fan.set_speed(pct(50)), vec![PwmCommand::Write(128)]);
}

#[test]
fn thresholds_reject_stop_above_start() {
    assert!(Thresholds::new(pct(10), pct(40)).is_none());
    assert!(Thresholds::new(pct(40), pct(40)).is_some());
    let u = Thresholds::uncalibrated();
    assert_eq!(u.start, Speed::full());
    assert_eq!(u.stop, Speed::stopped());
}

/// A fan that starts at `start` raw and keeps turning down to just above `stop`.
fn run_calibration(max_raw: u8, start: u8, stop: u8) -> CalibrationStep {
    let mut spinning = false;
    let mut cal = Calibration::new(max_raw);
    let mut raw = cal.raw;
    for _ in 0..10_000 {
        if !spinning && raw >= start {
            spinning = true;
        }
        if spinning && raw <= stop {
            spinning = false;
        }
        let rpm = if spinning { 1200 } else { 0 };
        match cal.observe(rpm) {
            CalibrationStep::Write(v) => raw = v,
            other => return other,
        }
    }
    panic!("calibration did not end");
}

#[test]
fn calibration_finds_thresholds() {
    match run_calibration(255, 80, 40) {
        CalibrationStep::Finished(t) => {
            let start = f64::from(t.start.millionths()) / 1_000_000.0;
            let stop = f64::from(t.stop.millionths()) / 1_000_000.0;
            assert!((start - 0.314).abs() < 0.001);
            assert!((stop - 0.157).abs() < 0.001);
        }
        other => panic!("unexpected {other:?}"),
    }
}

#[test]
fn calibration_never_gives_start_below_stop() {
    for (start, stop) in [(0u8, 0u8), (3, 0), (255, 0), (255, 254), (100, 99), (37, 12)] {
        match run_calibration(255, start, stop) {
            CalibrationStep::Finished(t) => assert!(t.start.millionths() >= t.stop.millionths()),
            other => panic!("unexpected {other:?}"),
        }
    }
}

#[test]
fn calibration_of_dead_fan_fails() {
    let mut cal = Calibration::new(255);
    let mut steps = 0;
    loop {
        match cal.observe(0) {
            CalibrationStep::Write(v) => {
                assert_eq!(v, cal.raw);
                steps += 1;
            }
            CalibrationStep::NeverSpun => break,
            other => panic!("unexpected {other:?}"),
        }
    }
    assert_eq!(steps, 51);
}
