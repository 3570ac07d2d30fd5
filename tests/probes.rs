use hddfancontrol::{daemon_temp, select_probe, smart_temp, ProbeError, ProbeMethod};

const DAEMON: &[u8] = b"|/dev/sda|WDC WD40EFRX-68N32N0|35|C||/dev/sdb|ST4000VN008|SLP|*||/dev/sdc|ST8000|UNK|*||/dev/sdd|HGST|41|F|";

#[test]
fn daemon_answer_for_known_drive() {
    assert_eq!(daemon_temp(DAEMON, b"/dev/sda"), Ok(35_000));
}

#[test]
fn daemon_answer_errors() {
    assert_eq!(daemon_temp(DAEMON, b"/dev/sdb"), Err(ProbeError::DriveSleeping));
    assert_eq!(daemon_temp(DAEMON, b"/dev/sdc"), Err(ProbeError::Malformed));
    assert_eq!(daemon_temp(DAEMON, b"/dev/sdd"), Err(ProbeError::Malformed));
    assert_eq!(daemon_temp(DAEMON, b"/dev/sde"), Err(ProbeError::UnknownDrive));
    assert_eq!(daemon_temp(DAEMON, b"/dev/sd"), Err(ProbeError::UnknownDrive));
    assert_eq!(daemon_temp(b"", b"/dev/sda"), Err(ProbeError::UnknownDrive));
}

const SMART: &[u8] = b"smartctl 7.3\n\n=== START OF READ SMART DATA SECTION ===\nSCT Status Version:                  3\nCurrent Temperature:                    33 Celsius\nPower Cycle Min/Max Temperature:     21/35 Celsius\n";

#[test]
fn smart_report_temperature() {
    assert_eq!(smart_temp(SMART), Ok(33_000));
    assert_eq!(smart_temp(b"Current Temperature: 47"), Ok(47_000));
}

#[test]
fn smart_report_errors() {
    assert_eq!(smart_temp(b"Current Temperature:     -     Celsius\n"), Err(ProbeError::Malformed));
    assert_eq!(smart_temp(b"no temperature here\n"), Err(ProbeError::UnknownDrive));
    assert_eq!(smart_temp(b""), Err(ProbeError::UnknownDrive));
}

#[test]
fn probe_selection_order() {
    assert_eq!(select_probe(true, true, true), Some(ProbeMethod::HwmonAttribute));
    assert_eq!(select_probe(false, true, true), Some(ProbeMethod::DaemonSocket));
    assert_eq!(select_probe(false, false, true), Some(ProbeMethod::SmartQuery));
    assert_eq!(select_probe(false, false, false), None);
    assert!(ProbeMethod::HwmonAttribute.supports_sleeping_probe());
    assert!(!ProbeMethod::DaemonSocket.supports_sleeping_probe());
    assert!(!ProbeMethod::SmartQuery.supports_sleeping_probe());
}
