//! The decisions of one control tick: which drives to probe, the hottest
//! drive, and the speed that all readings call for together.
use vstd::prelude::*;
use crate::drive::{DriveState, DriveStatus};
use crate::speed::{curve, lemma_curve_in_bounds, target_speed, Speed, TempRange};

verus! {

/// An optional reading as a mathematical integer.
pub open spec fn widen(o: Option<i64>) -> Option<int> {
    match o {
        Some(m) => Some(m as int),
        None => None,
    }
}

/// Whether a drive may be probed this tick: a spun down drive is left alone
/// unless its probe can read it without waking it.
pub open spec fn may_probe(status: DriveStatus) -> bool {
    !(status.state.is_spun_down_spec() && !status.supports_sleeping_probe)
}

/// Decides, drive by drive, whether to probe its temperature this tick.
pub fn probe_plan(drives: &Vec<DriveStatus>) -> (r: Vec<bool>)
    ensures
        r@.len() == drives@.len(),
        forall|i: int| 0 <= i < drives@.len() ==> r@[i] == may_probe(drives@[i]),
{
    let mut plan: Vec<bool> = Vec::new();
    let mut i: usize = 0;
    while i < drives.len()
        invariant
            i <= drives@.len(),
            plan@.len() == i,
            forall|j: int| 0 <= j < i ==> plan@[j] == may_probe(drives@[j]),
        decreases drives@.len() - i,
    {
        let status = drives[i];
        let spun_down = status.state.is_spun_down();
        plan.push(!(spun_down && !status.supports_sleeping_probe));
        i = i + 1;
    }
    plan
}

/// The hottest of the probed drives among the first `n`, if any was probed.
pub open spec fn hottest(plan: Seq<bool>, temps: Seq<i64>, n: int) -> Option<int>
    decreases n,
{
    if n <= 0 {
        None
    } else {
        let rest = hottest(plan, temps, n - 1);
        if !plan[n - 1] {
            rest
        } else {
            match rest {
                Some(m) => Some(if m >= temps[n - 1] { m } else { temps[n - 1] as int }),
                None => Some(temps[n - 1] as int),
            }
        }
    }
}

proof fn lemma_hottest_facts(plan: Seq<bool>, temps: Seq<i64>, n: int)
    requires
        0 <= n <= plan.len(),
        n <= temps.len(),
    ensures
        hottest(plan, temps, n).is_none() <==> forall|i: int| 0 <= i < n ==> !plan[i],
        hottest(plan, temps, n) matches Some(m) ==> {
            &&& forall|i: int| 0 <= i < n && plan[i] ==> temps[i] <= m
            &&& exists|i: int| 0 <= i < n && plan[i] && temps[i] == m
        },
    decreases n,
{
    if n > 0 {
        lemma_hottest_facts(plan, temps, n - 1);
        if plan[n - 1] {
            assert(hottest(plan, temps, n).is_some());
        }
    }
}

/// The highest temperature among the probed drives; `temps[i]` is read only
/// where `plan[i]` holds.
pub fn max_drive_temp(plan: &Vec<bool>, temps: &Vec<i64>) -> (r: Option<i64>)
    requires
        plan@.len() == temps@.len(),
    ensures
        r.is_none() <==> forall|i: int| 0 <= i < plan@.len() ==> !plan@[i],
        r matches Some(m) ==> {
            &&& forall|i: int| 0 <= i < plan@.len() && plan@[i] ==> temps@[i] <= m
            &&& exists|i: int| 0 <= i < plan@.len() && plan@[i] && temps@[i] == m
        },
        widen(r) == hottest(plan@, temps@, plan@.len() as int),
{
    let mut best: Option<i64> = None;
    let mut i: usize = 0;
    while i < plan.len()
        invariant
            i <= plan@.len(),
            plan@.len() == temps@.len(),
            widen(best) == hottest(plan@, temps@, i as int),
        decreases plan@.len() - i,
    {
        if plan[i] {
            let t = temps[i];
            best = match best {
                Some(m) => Some(if m >= t { m } else { t }),
                None => Some(t),
            };
        }
        i = i + 1;
    }
    proof {
        lemma_hottest_facts(plan@, temps@, plan@.len() as int);
    }
    best
}

/// A board sensor's reading together with the range it is judged against.
#[derive(Clone, Copy, Debug, PartialEq, Eq, Structural)]
pub struct SensorReading {
    pub temp: i64,
    pub range: TempRange,
}

/// The greater of two speeds, as integers.
pub open spec fn max_int(a: int, b: int) -> int {
    if a >= b { a } else { b }
}

/// The speed that the first `n` sensors call for, starting from `start`.
pub open spec fn fold_sensors(start: int, sensors: Seq<SensorReading>, floor: int, n: int) -> int
    decreases n,
{
    if n <= 0 {
        start
    } else {
        max_int(
            fold_sensors(start, sensors, floor, n - 1),
            curve(sensors[n - 1].temp as int, sensors[n - 1].range.low as int, sensors[n - 1].range.high as int, floor),
        )
    }
}

/// The speed that the hottest drive alone calls for, or the floor when no
/// drive was probed.
pub open spec fn drive_speed(drive_temp: Option<i64>, range: TempRange, floor: int) -> int {
    match drive_temp {
        Some(t) => max_int(floor, curve(t as int, range.low as int, range.high as int, floor)),
        None => floor,
    }
}

/// The speed that all readings of a tick call for together.
pub open spec fn combined_speed(
    floor: int,
    drive_temp: Option<i64>,
    drive_range: TempRange,
    sensors: Seq<SensorReading>,
) -> int {
    fold_sensors(drive_speed(drive_temp, drive_range, floor), sensors, floor, sensors.len() as int)
}

pub open spec fn sensors_wf(sensors: Seq<SensorReading>) -> bool {
    forall|i: int| 0 <= i < sensors.len() ==> (#[trigger] sensors[i]).range.wf()
}

proof fn lemma_fold_bounds(start: int, sensors: Seq<SensorReading>, floor: int, n: int)
    requires
        0 <= n <= sensors.len(),
        sensors_wf(sensors),
        0 <= floor <= start <= crate::speed::SPEED_SCALE,
    ensures
        start <= fold_sensors(start, sensors, floor, n) <= crate::speed::SPEED_SCALE,
        forall|i: int|
            0 <= i < n ==> curve(
                sensors[i].temp as int,
                sensors[i].range.low as int,
                sensors[i].range.high as int,
                floor,
            ) <= fold_sensors(start, sensors, floor, n),
    decreases n,
{
    if n > 0 {
        lemma_fold_bounds(start, sensors, floor, n - 1);
        let s = sensors[n - 1];
        assert(s.range.wf());
        lemma_curve_in_bounds(s.temp as int, s.range.low as int, s.range.high as int, floor);
    }
}

/// Folds the hottest drive and every board sensor through their curves and
/// keeps the greatest speed, never going below `floor`.
pub fn aggregate_speed(
    floor: Speed,
    drive_temp: Option<i64>,
    drive_range: &TempRange,
    sensors: &Vec<SensorReading>,
) -> (r: Speed)
    requires
        floor.wf(),
        drive_range.wf(),
        sensors_wf(sensors@),
    ensures
        r.wf(),
        r@ == combined_speed(floor@, drive_temp, *drive_range, sensors@),
{
    let mut speed = floor;
    match drive_temp {
        Some(t) => {
            speed = speed.max(target_speed(t, drive_range, floor));
        },
        None => {},
    }
    proof {
        if let Some(t) = drive_temp {
            lemma_curve_in_bounds(t as int, drive_range.low as int, drive_range.high as int, floor@);
        }
    }
    let ghost start = speed@;
    let mut i: usize = 0;
    while i < sensors.len()
        invariant
            i <= sensors@.len(),
            sensors_wf(sensors@),
            floor.wf(),
            floor@ <= start <= crate::speed::SPEED_SCALE,
            start == drive_speed(drive_temp, *drive_range, floor@),
            speed@ == fold_sensors(start, sensors@, floor@, i as int),
            speed.wf(),
        decreases sensors@.len() - i,
    {
        let s = sensors[i];
        proof {
            assert(sensors@[i as int].range.wf());
        }
        speed = speed.max(target_speed(s.temp, &s.range, floor));
        proof {
            lemma_fold_bounds(start, sensors@, floor@, i as int + 1);
        }
        i = i + 1;
    }
    speed
}

/// The combined speed is at least the floor, at least what the hottest drive
/// calls for, and at least what each sensor calls for.
pub proof fn lemma_combined_dominates(
    floor: int,
    drive_temp: Option<i64>,
    drive_range: TempRange,
    sensors: Seq<SensorReading>,
)
    requires
        0 <= floor <= crate::speed::SPEED_SCALE,
        drive_range.wf(),
        sensors_wf(sensors),
    ensures
        floor <= combined_speed(floor, drive_temp, drive_range, sensors),
        drive_temp matches Some(t) ==> curve(
            t as int,
            drive_range.low as int,
            drive_range.high as int,
            floor,
        ) <= combined_speed(floor, drive_temp, drive_range, sensors),
        forall|i: int|
            0 <= i < sensors.len() ==> curve(
                sensors[i].temp as int,
                sensors[i].range.low as int,
                sensors[i].range.high as int,
                floor,
            ) <= combined_speed(floor, drive_temp, drive_range, sensors),
{
    if let Some(t) = drive_temp {
        lemma_curve_in_bounds(t as int, drive_range.low as int, drive_range.high as int, floor);
    }
    lemma_fold_bounds(drive_speed(drive_temp, drive_range, floor), sensors, floor, sensors.len() as int);
}

/// A drive that is spun down and whose probe cannot read it asleep is not
/// probed, and whatever stands in its slot of the readings changes nothing.
pub proof fn lemma_sleeping_drive_ignored(
    drives: Seq<DriveStatus>,
    plan: Seq<bool>,
    temps: Seq<i64>,
    other: Seq<i64>,
    k: int,
)
    requires
        plan.len() == drives.len() == temps.len() == other.len(),
        forall|i: int| 0 <= i < drives.len() ==> plan[i] == may_probe(drives[i]),
        0 <= k < drives.len(),
        drives[k].state.is_spun_down_spec(),
        !drives[k].supports_sleeping_probe,
        forall|i: int| 0 <= i < temps.len() && i != k ==> temps[i] == other[i],
    ensures
        !plan[k],
        hottest(plan, temps, plan.len() as int) == hottest(plan, other, plan.len() as int),
{
    lemma_hottest_unplanned(plan, temps, other, k, plan.len() as int);
}

proof fn lemma_hottest_unplanned(plan: Seq<bool>, temps: Seq<i64>, other: Seq<i64>, k: int, n: int)
    requires
        0 <= n <= plan.len(),
        plan.len() == temps.len() == other.len(),
        0 <= k < plan.len(),
        !plan[k],
        forall|i: int| 0 <= i < temps.len() && i != k ==> temps[i] == other[i],
    ensures
        hottest(plan, temps, n) == hottest(plan, other, n),
    decreases n,
{
    if n > 0 {
        lemma_hottest_unplanned(plan, temps, other, k, n - 1);
    }
}

/// Where the control loop stands.
#[derive(Clone, Copy, Debug, PartialEq, Eq, Structural)]
pub enum LoopState {
    Running,
    /// A termination request came; the current tick is being finished.
    Stopping,
    /// The loop is over and the channels are to be restored.
    Stopped,
}

/// What happened since the loop state last changed.
#[derive(Clone, Copy, Debug, PartialEq, Eq, Structural)]
pub enum LoopEvent {
    TerminationRequested,
    TickFinished,
    /// A reading or a command failed; the daemon does not go on degraded.
    TickFailed,
}

pub open spec fn loop_next(state: LoopState, event: LoopEvent) -> LoopState {
    match (state, event) {
        (LoopState::Stopped, _) => LoopState::Stopped,
        (_, LoopEvent::TickFailed) => LoopState::Stopped,
        (LoopState::Running, LoopEvent::TerminationRequested) => LoopState::Stopping,
        (LoopState::Running, LoopEvent::TickFinished) => LoopState::Running,
        (LoopState::Stopping, LoopEvent::TickFinished) => LoopState::Stopped,
        (LoopState::Stopping, LoopEvent::TerminationRequested) => LoopState::Stopping,
    }
}

impl LoopState {
    /// The state after `event`: a termination request lets the current tick
    /// finish, a failed tick ends the loop at once, and an ended loop stays
    /// ended.
    pub fn next(self, event: LoopEvent) -> (r: LoopState)
        ensures
            r == loop_next(self, event),
    {
        match (self, event) {
            (LoopState::Stopped, _) => LoopState::Stopped,
            (_, LoopEvent::TickFailed) => LoopState::Stopped,
            (LoopState::Running, LoopEvent::TerminationRequested) => LoopState::Stopping,
            (LoopState::Running, LoopEvent::TickFinished) => LoopState::Running,
            (LoopState::Stopping, LoopEvent::TickFinished) => LoopState::Stopped,
            (LoopState::Stopping, LoopEvent::TerminationRequested) => LoopState::Stopping,
        }
    }

    /// Whether another tick is to start.
    pub fn keeps_running(&self) -> (r: bool)
        ensures
            r == (*self == LoopState::Running),
    {
        matches!(self, LoopState::Running)
    }
}

} // verus!
