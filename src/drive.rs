//! Drive power states and what the controller knows of each drive.
use vstd::prelude::*;
use crate::parse::{report_token, report_token_bounds, slice_is};

verus! {

/// The power state a drive reports.
#[derive(Clone, Copy, Debug, PartialEq, Eq, Structural)]
pub enum DriveState {
    Active,
    Idle,
    Standby,
    Sleeping,
    Unknown,
}

impl DriveState {
    pub open spec fn is_spun_down_spec(&self) -> bool {
        matches!(self, DriveState::Standby | DriveState::Sleeping)
    }

    /// Whether the platters are stopped.
    pub fn is_spun_down(&self) -> (r: bool)
        ensures
            r == self.is_spun_down_spec(),
    {
        matches!(self, DriveState::Standby | DriveState::Sleeping)
    }
}

/// The words a power state report ends on.
pub open spec fn word_active() -> Seq<u8> {
    seq![97u8, 99, 116, 105, 118, 101]
}

pub open spec fn word_idle() -> Seq<u8> {
    seq![105u8, 100, 108, 101]
}

pub open spec fn word_active_idle() -> Seq<u8> {
    seq![97u8, 99, 116, 105, 118, 101, 47, 105, 100, 108, 101]
}

pub open spec fn word_standby() -> Seq<u8> {
    seq![115u8, 116, 97, 110, 100, 98, 121]
}

pub open spec fn word_sleeping() -> Seq<u8> {
    seq![115u8, 108, 101, 101, 112, 105, 110, 103]
}

/// The state a report's final word names; any other word is `Unknown`.
pub open spec fn state_of_word(w: Seq<u8>) -> DriveState {
    if w == word_active() || w == word_active_idle() {
        DriveState::Active
    } else if w == word_idle() {
        DriveState::Idle
    } else if w == word_standby() {
        DriveState::Standby
    } else if w == word_sleeping() {
        DriveState::Sleeping
    } else {
        DriveState::Unknown
    }
}

impl DriveState {
    /// Classifies a power state report by the word after its last `:`,
    /// such as ` drive state is:  standby`.
    pub fn from_report(report: &[u8]) -> (r: DriveState)
        ensures
            r == state_of_word(report_token(report@)),
    {
        let (b, e) = report_token_bounds(report);
        let active: [u8; 6] = [97u8, 99, 116, 105, 118, 101];
        let idle: [u8; 4] = [105u8, 100, 108, 101];
        let active_idle: [u8; 11] = [97u8, 99, 116, 105, 118, 101, 47, 105, 100, 108, 101];
        let standby: [u8; 7] = [115u8, 116, 97, 110, 100, 98, 121];
        let sleeping: [u8; 8] = [115u8, 108, 101, 101, 112, 105, 110, 103];
        proof {
            assert(active@ =~= word_active());
            assert(idle@ =~= word_idle());
            assert(active_idle@ =~= word_active_idle());
            assert(standby@ =~= word_standby());
            assert(sleeping@ =~= word_sleeping());
        }
        if slice_is(report, b, e, active.as_slice()) || slice_is(report, b, e, active_idle.as_slice()) {
            DriveState::Active
        } else if slice_is(report, b, e, idle.as_slice()) {
            DriveState::Idle
        } else if slice_is(report, b, e, standby.as_slice()) {
            DriveState::Standby
        } else if slice_is(report, b, e, sleeping.as_slice()) {
            DriveState::Sleeping
        } else {
            DriveState::Unknown
        }
    }
}

/// A drive's power state this tick, with the capability of its probe.
#[derive(Clone, Copy, Debug, PartialEq, Eq, Structural)]
pub struct DriveStatus {
    pub state: DriveState,
    pub supports_sleeping_probe: bool,
}

} // verus!
