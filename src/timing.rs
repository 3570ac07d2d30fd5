//! The wait between two ticks, cut short by a termination request.
use std::sync::mpsc::Receiver;
use std::time::Duration;
use vstd::prelude::*;

verus! {

/// std's `Receiver`, carried through as an opaque value.
#[verifier::external_type_specification]
#[verifier::external_body]
#[verifier::reject_recursive_types(T)]
pub struct ExReceiver<T>(Receiver<T>);

/// Relies on std's `Receiver::recv_timeout`: it blocks until a message
/// arrives, the sender is gone, or `dur` has passed. Which comes first
/// depends on time, so its outcome is not kept.
#[verifier::external_body]
fn recv_within(rx: &Receiver<()>, dur: Duration) {
    let _ = rx.recv_timeout(dur);
}

/// Interruptible sleep: waits for `dur`, or less if a termination request
/// comes through `exit_rx`.
pub fn sleep(dur: Duration, exit_rx: &Receiver<()>) {
    recv_within(exit_rx, dur);
}

/// How long to wait after a tick that took `elapsed_ms` so that ticks start
/// every `interval_ms`; no wait when the tick overran.
pub fn remaining_wait_ms(interval_ms: u64, elapsed_ms: u64) -> (r: u64)
    ensures
        r == if interval_ms > elapsed_ms { interval_ms - elapsed_ms } else { 0 },
{
    if interval_ms > elapsed_ms {
        interval_ms - elapsed_ms
    } else {
        0
    }
}

} // verus!
