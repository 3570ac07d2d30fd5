//! A fan on a PWM channel: start/stop hysteresis and its calibration.
use vstd::prelude::*;
use crate::pwm::{lemma_speed_of_monotonic, raw_from_speed, raw_of, speed_from_raw, speed_of};
use crate::speed::{Speed, SPEED_SCALE};

verus! {

/// The speeds at which a fan starts spinning from rest and at which a
/// spinning fan stops.
#[derive(Clone, Copy, Debug, PartialEq, Eq, Structural)]
pub struct Thresholds {
    pub start: Speed,
    pub stop: Speed,
}

impl Thresholds {
    /// A running fan may drop below its start speed, so `stop <= start`.
    pub open spec fn wf(&self) -> bool {
        &&& self.start.wf()
        &&& self.stop.wf()
        &&& self.stop@ <= self.start@
    }

    /// Builds thresholds, refusing a stop speed above the start speed.
    pub fn new(start: Speed, stop: Speed) -> (r: Option<Thresholds>)
        requires
            start.wf(),
            stop.wf(),
        ensures
            stop@ <= start@ <==> r.is_some(),
            r matches Some(t) ==> t.start == start && t.stop == stop && t.wf(),
    {
        if stop.millionths <= start.millionths {
            Some(Thresholds { start, stop })
        } else {
            None
        }
    }

    /// Thresholds for a fan that was never calibrated: kick it at full
    /// speed from rest, and assume it only stops when stopped.
    pub fn uncalibrated() -> (r: Thresholds)
        ensures
            r.start@ == SPEED_SCALE,
            r.stop@ == 0,
            r.wf(),
    {
        Thresholds { start: Speed::full(), stop: Speed::stopped() }
    }
}

/// One action on a PWM channel.
#[derive(Clone, Copy, Debug, PartialEq, Eq, Structural)]
pub enum PwmCommand {
    /// Switch the channel to manual control.
    EnableManual,
    /// Write a raw duty-cycle value.
    Write(u8),
}

/// A fan driven through one PWM channel.
#[derive(Clone, Copy, Debug, PartialEq, Eq, Structural)]
pub struct Fan {
    pub thresholds: Thresholds,
    pub max_raw: u8,
    /// Whether the channel was switched to manual control.
    pub manual: bool,
    /// Whether the last commanded speed was zero.
    pub stopped: bool,
}

/// The commands that set a fan to `speed`: manual control first if it is not
/// on yet, then a kick at the start speed when a stopped fan is asked for a
/// speed it could not start at, then the speed itself.
pub open spec fn speed_commands(fan: Fan, speed: Speed) -> Seq<PwmCommand> {
    let enable: Seq<PwmCommand> = if fan.manual {
        seq![]
    } else {
        seq![PwmCommand::EnableManual]
    };
    let kick: Seq<PwmCommand> = if fan.stopped && 0 < speed@ < fan.thresholds.start@ {
        seq![PwmCommand::Write(raw_of(fan.thresholds.start@, fan.max_raw as int) as u8)]
    } else {
        seq![]
    };
    enable + kick + seq![PwmCommand::Write(raw_of(speed@, fan.max_raw as int) as u8)]
}

impl Fan {
    pub open spec fn wf(&self) -> bool {
        self.thresholds.wf() && self.max_raw > 0
    }

    /// A fan whose channel currently holds `current_raw`; it counts as
    /// stopped when that value is zero.
    pub fn new(thresholds: Thresholds, max_raw: u8, current_raw: u8) -> (r: Fan)
        requires
            thresholds.wf(),
            max_raw > 0,
        ensures
            r.wf(),
            r.thresholds == thresholds,
            r.max_raw == max_raw,
            !r.manual,
            r.stopped == (current_raw == 0),
    {
        Fan { thresholds, max_raw, manual: false, stopped: current_raw == 0 }
    }

    /// Decides the commands that set the fan to `speed`, in order.
    pub fn set_speed(&mut self, speed: Speed) -> (r: Vec<PwmCommand>)
        requires
            old(self).wf(),
            speed.wf(),
        ensures
            r@ == speed_commands(*old(self), speed),
            final(self).wf(),
            final(self).thresholds == old(self).thresholds,
            final(self).max_raw == old(self).max_raw,
            final(self).manual,
            final(self).stopped == (speed@ == 0),
    {
        let mut cmds: Vec<PwmCommand> = Vec::new();
        if !self.manual {
            cmds.push(PwmCommand::EnableManual);
        }
        let start = self.thresholds.start;
        if self.stopped && 0 < speed.millionths && speed.millionths < start.millionths {
            cmds.push(PwmCommand::Write(raw_from_speed(start, self.max_raw)));
        }
        cmds.push(PwmCommand::Write(raw_from_speed(speed, self.max_raw)));
        self.manual = true;
        self.stopped = speed.millionths == 0;
        proof {
            assert(cmds@ =~= speed_commands(*old(self), speed));
        }
        cmds
    }
}

/// Raw steps by which calibration moves the duty cycle.
pub const CALIBRATION_STEP: u8 = 5;

/// Where a calibration stands.
#[derive(Clone, Copy, Debug, PartialEq, Eq, Structural)]
pub enum CalibrationPhase {
    /// Raising the duty cycle until the fan spins.
    RampUp,
    /// Lowering it from the raw value `start` at which the fan spun up,
    /// until it stops.
    RampDown { start: u8 },
    Done,
}

/// What to do after an RPM reading during calibration.
#[derive(Clone, Copy, Debug, PartialEq, Eq, Structural)]
pub enum CalibrationStep {
    /// Write this raw value, wait, and read the RPM again.
    Write(u8),
    /// The fan's thresholds were found.
    Finished(Thresholds),
    /// The fan never spun, even at full duty cycle.
    NeverSpun,
}

/// The calibration of one fan: the duty cycle is raised from zero until the
/// fan spins, then lowered until it stops. `raw` is the value on the channel
/// when the next reading is taken.
#[derive(Clone, Copy, Debug, PartialEq, Eq, Structural)]
pub struct Calibration {
    pub max_raw: u8,
    pub phase: CalibrationPhase,
    pub raw: u8,
}

pub open spec fn thresholds_of(start: int, stop: int, max_raw: int) -> Thresholds {
    Thresholds {
        start: Speed { millionths: speed_of(start, max_raw) as u32 },
        stop: Speed { millionths: speed_of(stop, max_raw) as u32 },
    }
}

/// One step of calibration: the next state and what to do, given the RPM
/// read at the current raw value.
pub open spec fn calibration_next(c: Calibration, rpm: u64) -> (Calibration, CalibrationStep) {
    match c.phase {
        CalibrationPhase::RampUp => {
            if rpm > 0 {
                if c.raw == 0 {
                    (
                        Calibration { phase: CalibrationPhase::Done, ..c },
                        CalibrationStep::Finished(thresholds_of(0, 0, c.max_raw as int)),
                    )
                } else {
                    let next = if c.raw > CALIBRATION_STEP { c.raw - CALIBRATION_STEP } else { 0 };
                    (
                        Calibration { phase: CalibrationPhase::RampDown { start: c.raw }, raw: next as u8, ..c },
                        CalibrationStep::Write(next as u8),
                    )
                }
            } else if c.raw == c.max_raw {
                (Calibration { phase: CalibrationPhase::Done, ..c }, CalibrationStep::NeverSpun)
            } else {
                let next = if c.max_raw - c.raw > CALIBRATION_STEP { c.raw + CALIBRATION_STEP } else { c.max_raw as int };
                (Calibration { raw: next as u8, ..c }, CalibrationStep::Write(next as u8))
            }
        },
        CalibrationPhase::RampDown { start } => {
            if rpm == 0 || c.raw == 0 {
                (
                    Calibration { phase: CalibrationPhase::Done, ..c },
                    CalibrationStep::Finished(thresholds_of(start as int, c.raw as int, c.max_raw as int)),
                )
            } else {
                let next = if c.raw > CALIBRATION_STEP { c.raw - CALIBRATION_STEP } else { 0 };
                (Calibration { raw: next as u8, ..c }, CalibrationStep::Write(next as u8))
            }
        },
        CalibrationPhase::Done => (c, CalibrationStep::NeverSpun),
    }
}

impl Calibration {
    pub open spec fn wf(&self) -> bool {
        &&& self.max_raw > 0
        &&& self.raw <= self.max_raw
        &&& (self.phase matches CalibrationPhase::RampDown { start } ==> self.raw < start <= self.max_raw)
    }

    pub open spec fn is_running(&self) -> bool {
        !(self.phase matches CalibrationPhase::Done)
    }

    /// How many readings are left at most: it drops at every step.
    pub open spec fn remaining(&self) -> nat {
        match self.phase {
            CalibrationPhase::RampUp => ((self.max_raw - self.raw) + self.max_raw + 2) as nat,
            CalibrationPhase::RampDown { .. } => (self.raw + 1) as nat,
            CalibrationPhase::Done => 0,
        }
    }

    /// Starts a calibration; the channel is to be set to raw zero first.
    pub fn new(max_raw: u8) -> (r: Calibration)
        requires
            max_raw > 0,
        ensures
            r.wf(),
            r.is_running(),
            r.max_raw == max_raw,
            r.phase == CalibrationPhase::RampUp,
            r.raw == 0,
    {
        Calibration { max_raw, phase: CalibrationPhase::RampUp, raw: 0 }
    }

    /// Takes the RPM read at the current raw value and decides what comes next.
    pub fn observe(&mut self, rpm: u64) -> (r: CalibrationStep)
        requires
            old(self).wf(),
            old(self).is_running(),
        ensures
            (*final(self), r) == calibration_next(*old(self), rpm),
            final(self).wf(),
            r matches CalibrationStep::Write(v) ==> v == final(self).raw && final(self).is_running()
                && final(self).remaining() < old(self).remaining(),
            r matches CalibrationStep::Finished(t) ==> t.wf(),
            !(r matches CalibrationStep::Write(_)) ==> !final(self).is_running(),
    {
        match self.phase {
            CalibrationPhase::RampUp => {
                if rpm > 0 {
                    if self.raw == 0 {
                        self.phase = CalibrationPhase::Done;
                        CalibrationStep::Finished(Thresholds {
                            start: speed_from_raw(0, self.max_raw),
                            stop: speed_from_raw(0, self.max_raw),
                        })
                    } else {
                        let next = if self.raw > CALIBRATION_STEP { self.raw - CALIBRATION_STEP } else { 0 };
                        self.phase = CalibrationPhase::RampDown { start: self.raw };
                        self.raw = next;
                        CalibrationStep::Write(next)
                    }
                } else if self.raw == self.max_raw {
                    self.phase = CalibrationPhase::Done;
                    CalibrationStep::NeverSpun
                } else {
                    let next = if self.max_raw - self.raw > CALIBRATION_STEP {
                        self.raw + CALIBRATION_STEP
                    } else {
                        self.max_raw
                    };
                    self.raw = next;
                    CalibrationStep::Write(next)
                }
            },
            CalibrationPhase::RampDown { start } => {
                if rpm == 0 || self.raw == 0 {
                    self.phase = CalibrationPhase::Done;
                    proof {
                        lemma_speed_of_monotonic(self.raw as int, start as int, self.max_raw as int);
                    }
                    CalibrationStep::Finished(Thresholds {
                        start: speed_from_raw(start, self.max_raw),
                        stop: speed_from_raw(self.raw, self.max_raw),
                    })
                } else {
                    let next = if self.raw > CALIBRATION_STEP { self.raw - CALIBRATION_STEP } else { 0 };
                    self.raw = next;
                    CalibrationStep::Write(next)
                }
            },
            CalibrationPhase::Done => CalibrationStep::NeverSpun,
        }
    }
}

/// Calibration never finds a stop speed above the start speed.
pub proof fn lemma_calibration_thresholds_ordered(c: Calibration, rpm: u64)
    requires
        c.wf(),
        c.is_running(),
    ensures
        calibration_next(c, rpm).1 matches CalibrationStep::Finished(t) ==> t.stop@ <= t.start@,
{
    if let CalibrationPhase::RampDown { start } = c.phase {
        lemma_speed_of_monotonic(c.raw as int, start as int, c.max_raw as int);
    }
}

} // verus!
