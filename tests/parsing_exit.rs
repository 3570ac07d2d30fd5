use hddfancontrol::{
    default_range, parse_attribute, parse_rpm, parse_temperature, ChannelSnapshot, ChannelState,
    DriveState, ExitGuard, RestoreCommand, TempRange, MANUAL_MODE,
};

#[test]
fn attribute_parsing() {
    assert_eq!(parse_attribute(b"42000\n"), Some(42_000));
    assert_eq!(parse_attribute(b"-5000\n"), Some(-5_000));
    assert_eq!(parse_attribute(b"0"), Some(0));
    assert_eq!(parse_attribute(b"9223372036854775807\n"), Some(i64::MAX));
    assert_eq!(parse_attribute(b"-9223372036854775808"), Some(i64::MIN));
    assert_eq!(parse_attribute(b"9223372036854775808"), None);
    assert_eq!(parse_attribute(b"99999999999999999999999"), None);
    assert_eq!(parse_attribute(b""), None);
    assert_eq!(parse_attribute(b"\n"), None);
    assert_eq!(parse_attribute(b"-"), None);
    assert_eq!(parse_attribute(b"12a"), None);
    assert_eq!(parse_attribute(b" 12"), None);
}

#[test]
fn temperature_and_rpm_parsing() {
    assert_eq!(parse_temperature(b"38500\n"), Some(38_500));
    assert_eq!(parse_rpm(b"1450\n"), Some(1450));
    assert_eq!(parse_rpm(b"0\n"), Some(0));
    assert_eq!(parse_rpm(b"-3\n"), None);
    assert_eq!(parse_rpm(b"fast"), None);
}

#[test]
fn power_state_reports() {
    assert_eq!(DriveState::from_report(b"\n/dev/sda:\n drive state is:  standby\n"), DriveState::Standby);
    assert_eq!(DriveState::from_report(b"\n/dev/sda:\n drive state is:  active/idle\n"), DriveState::Active);
    assert_eq!(DriveState::from_report(b"drive state is: idle"), DriveState::Idle);
    assert_eq!(DriveState::from_report(b"drive state is: active"), DriveState::Active);
    assert_eq!(DriveState::from_report(b"drive state is: sleeping\n"), DriveState::Sleeping);
    assert_eq!(DriveState::from_report(b"drive state is: unknown\n"), DriveState::Unknown);
    assert_eq!(DriveState::from_report(b""), DriveState::Unknown);
    assert!(DriveState::Standby.is_spun_down());
    assert!(DriveState::Sleeping.is_spun_down());
    assert!(!DriveState::Idle.is_spun_down());
}

#[test]
fn default_ranges() {
    assert_eq!(default_range(Some(100_000), Some(80_000)), TempRange { low: 60_000, high: 80_000 });
    assert_eq!(default_range(Some(100_000), None), TempRange { low: 70_000, high: 90_000 });
    assert_eq!(default_range(None, None), TempRange { low: 30_000, high: 50_000 });
    assert_eq!(default_range(None, Some(i64::MIN)), TempRange { low: 30_000, high: 50_000 });
}

fn snapshot() -> Vec<ChannelSnapshot> {
    vec![
        ChannelSnapshot { state: ChannelState { enable: 2, value: 77 }, max_raw: 255 },
        ChannelSnapshot { state: ChannelState { enable: 1, value: 0 }, max_raw: 255 },
    ]
}

fn apply(channels: &mut Vec<ChannelState>, cmds: &[RestoreCommand]) {
    for c in cmds {
        channels[c.channel] = c.state;
    }
}

#[test]
fn exit_guard_restores_captured_once() {
    let mut guard = ExitGuard::new(snapshot(), true);
    let mut channels = vec![ChannelState { enable: 1, value: 200 }, ChannelState { enable: 1, value: 13 }];
    let first = guard.trigger();
    apply(&mut channels, &first);
    assert_eq!(channels, vec![snapshot()[0].state, snapshot()[1].state]);
    channels[0].value = 9;
    let second = guard.trigger();
    assert!(second.is_empty());
    apply(&mut channels, &second);
    assert_eq!(channels[0].value, 9);
}

#[test]
fn exit_guard_full_speed_policy() {
    let mut guard = ExitGuard::new(snapshot(), false);
    let cmds = guard.trigger();
    assert_eq!(cmds.len(), 2);
    for (i, c) in cmds.iter().enumerate() {
        assert_eq!(c.channel, i);
        assert_eq!(c.state, ChannelState { enable: MANUAL_MODE, value: 255 });
    }
}
