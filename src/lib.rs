//! Drive and board temperature driven fan control.
//!
//! Temperatures are integers in millidegrees Celsius and fan speeds are
//! integers in millionths of full speed, so every rule of the controller is
//! exact integer arithmetic.
pub mod control;
pub mod drive;
pub mod exit;
pub mod fan;
pub mod hwmon;
pub mod parse;
pub mod probe;
pub mod pwm;
pub mod speed;
pub mod timing;

pub use control::{
    aggregate_speed, max_drive_temp, probe_plan, LoopEvent, LoopState, SensorReading,
};
pub use drive::{DriveState, DriveStatus};
pub use exit::{ChannelSnapshot, ChannelState, ExitGuard, RestoreCommand, MANUAL_MODE};
pub use fan::{
    Calibration, CalibrationPhase, CalibrationStep, Fan, PwmCommand, Thresholds, CALIBRATION_STEP,
};
pub use hwmon::{default_range, parse_rpm, parse_temperature};
pub use parse::parse_attribute;
pub use probe::{daemon_temp, select_probe, smart_temp, ProbeError, ProbeMethod};
pub use pwm::{raw_from_speed, speed_from_raw};
pub use speed::{target_speed, Speed, TempRange, SPEED_SCALE};
pub use timing::{remaining_wait_ms, sleep};
