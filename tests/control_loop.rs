use hddfancontrol::{
    aggregate_speed, max_drive_temp, probe_plan, remaining_wait_ms, sleep, target_speed,
    DriveState, DriveStatus, LoopEvent, LoopState, SensorReading, Speed, TempRange,
};
use std::sync::mpsc;
use std::time::{Duration, Instant};

fn range(low_c: i64, high_c: i64) -> TempRange {
    TempRange::new(low_c * 1000, high_c * 1000).unwrap()
}

fn pct(p: u32) -> Speed {
    Speed::from_percent(p).unwrap()
}

#[test]
fn below_low_gives_floor() {
    let r = range(30, 50);
    for t in [-40_000, 0, 29_999, 30_000] {
        assert_eq!(target_speed(t, &r, pct(20)), pct(20));
    }
}

#[test]
fn above_high_gives_full_speed() {
    let r = range(30, 50);
    for t in [50_000, 50_001, 90_000, i64::MAX] {
        assert_eq!(target_speed(t, &r, pct(20)), Speed::full());
    }
}

#[test]
fn curve_is_monotonic_over_range() {
    let r = range(30, 50);
    let mut prev = target_speed(29_000, &r, pct(20)).millionths();
    let mut t = 29_000;
    while t <= 51_000 {
        let s = target_speed(t, &r, pct(20)).millionths();
        assert!(s >= prev);
        prev = s;
        t += 37;
    }
}

#[test]
fn curve_extreme_range_does_not_overflow() {
    let r = TempRange::new(i64::MIN, i64::MAX).unwrap();
    let s = target_speed(0, &r, Speed::stopped());
    assert_eq!(s.millionths(), 500_000);
}

#[test]
fn one_drive_midrange_speed() {
    let drives = vec![DriveStatus { state: DriveState::Active, supports_sleeping_probe: false }];
    let plan = probe_plan(&drives);
    assert_eq!(plan, vec![true]);
    let hottest = max_drive_temp(&plan, &vec![40_000]);
    assert_eq!(hottest, Some(40_000));
    let speed = aggregate_speed(pct(20), hottest, &range(30, 50), &vec![]);
    assert_eq!(speed, pct(60));
}

#[test]
fn sleeping_drive_keeps_floor() {
    let drives = vec![DriveStatus { state: DriveState::Sleeping, supports_sleeping_probe: false }];
    let plan = probe_plan(&drives);
    assert_eq!(plan, vec![false]);
    let hottest = max_drive_temp(&plan, &vec![99_000]);
    assert_eq!(hottest, None);
    let speed = aggregate_speed(pct(20), hottest, &range(30, 50), &vec![]);
    assert_eq!(speed, pct(20));
}

#[test]
fn standby_drive_without_sleep_probe_is_not_probed() {
    let drives = vec![
        DriveStatus { state: DriveState::Standby, supports_sleeping_probe: false },
        DriveStatus { state: DriveState::Standby, supports_sleeping_probe: true },
        DriveStatus { state: DriveState::Idle, supports_sleeping_probe: false },
        DriveStatus { state: DriveState::Unknown, supports_sleeping_probe: false },
    ];
    let plan = probe_plan(&drives);
    assert_eq!(plan, vec![false, true, true, true]);
    assert_eq!(max_drive_temp(&plan, &vec![80_000, 35_000, 41_000, 20_000]), Some(41_000));
    assert_eq!(max_drive_temp(&plan, &vec![-5, 35_000, 41_000, 20_000]), Some(41_000));
}

#[test]
fn two_sensors_max_wins() {
    let floor = pct(20);
    let a = SensorReading { temp: 32_500, range: range(30, 50) };
    let b = SensorReading { temp: 42_500, range: range(30, 50) };
    assert_eq!(target_speed(a.temp, &a.range, floor), pct(30));
    assert_eq!(target_speed(b.temp, &b.range, floor), pct(70));
    assert_eq!(aggregate_speed(floor, None, &range(30, 50), &vec![a, b]), pct(70));
    assert_eq!(aggregate_speed(floor, None, &range(30, 50), &vec![b, a]), pct(70));
}

#[test]
fn aggregate_dominates_every_result() {
    let floor = pct(10);
    let drive_range = range(35, 45);
    let sensors = vec![
        SensorReading { temp: 45_000, range: range(40, 60) },
        SensorReading { temp: 20_000, range: range(40, 60) },
        SensorReading { temp: 55_000, range: range(50, 80) },
    ];
    let total = aggregate_speed(floor, Some(41_000), &drive_range, &sensors);
    assert!(total.millionths() >= floor.millionths());
    assert!(total.millionths() >= target_speed(41_000, &drive_range, floor).millionths());
    for s in &sensors {
        assert!(total.millionths() >= target_speed(s.temp, &s.range, floor).millionths());
    }
    assert_eq!(total, target_speed(41_000, &drive_range, floor));
}

#[test]
fn no_drives_probed_gives_none() {
    assert_eq!(max_drive_temp(&vec![], &vec![]), None);
}

#[test]
fn speed_and_range_constructors_reject_invalid() {
    assert!(Speed::from_percent(101).is_none());
    assert!(Speed::from_millionths(1_000_001).is_none());
    assert_eq!(Speed::from_millionths(1_000_000), Some(Speed::full()));
    assert!(TempRange::new(50_000, 50_000).is_none());
    assert!(TempRange::new(50_000, 30_000).is_none());
}

#[test]
fn loop_state_machine() {
    let s = LoopState::Running;
    assert_eq!(s.next(LoopEvent::TickFinished), LoopState::Running);
    let s = s.next(LoopEvent::TerminationRequested);
    assert_eq!(s, LoopState::Stopping);
    assert!(!s.keeps_running());
    assert_eq!(s.next(LoopEvent::TickFinished), LoopState::Stopped);
    assert_eq!(LoopState::Running.next(LoopEvent::TickFailed), LoopState::Stopped);
    assert_eq!(LoopState::Stopped.next(LoopEvent::TickFinished), LoopState::Stopped);
}

#[test]
fn wait_is_interval_minus_elapsed() {
    assert_eq!(remaining_wait_ms(20_000, 1_500), 18_500);
    assert_eq!(remaining_wait_ms(1_000, 1_500), 0);
    assert_eq!(remaining_wait_ms(1_000, 1_000), 0);
}

#[test]
fn sleep_returns_early_on_exit_request() {
    let (tx, rx) = mpsc::channel::<()>();
    tx.send(()).unwrap();
    let start = Instant::now();
    sleep(Duration::from_secs(10), &rx);
    assert!(start.elapsed() < Duration::from_secs(5));
}

#[test]
fn sleep_waits_without_request() {
    let (_tx, rx) = mpsc::channel::<()>();
    let start = Instant::now();
    sleep(Duration::from_millis(50), &rx);
    assert!(start.elapsed() >= Duration::from_millis(50));
}
