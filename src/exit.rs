//! Restoring the PWM channels once, whichever way the process ends.
use vstd::prelude::*;

verus! {

/// What a PWM channel holds: its control mode and its raw duty cycle.
#[derive(Clone, Copy, Debug, PartialEq, Eq, Structural)]
pub struct ChannelState {
    pub enable: u8,
    pub value: u8,
}

/// A channel as captured before the daemon touched it.
#[derive(Clone, Copy, Debug, PartialEq, Eq, Structural)]
pub struct ChannelSnapshot {
    pub state: ChannelState,
    pub max_raw: u8,
}

/// Puts channel `channel` into `state`.
#[derive(Clone, Copy, Debug, PartialEq, Eq, Structural)]
pub struct RestoreCommand {
    pub channel: usize,
    pub state: ChannelState,
}

/// The manual control mode of a PWM channel.
pub const MANUAL_MODE: u8 = 1;

/// The state a channel is left in: as captured, or at full speed under
/// manual control.
pub open spec fn restored_state(snap: ChannelSnapshot, restore_captured: bool) -> ChannelState {
    if restore_captured {
        snap.state
    } else {
        ChannelState { enable: MANUAL_MODE, value: snap.max_raw }
    }
}

/// One command per channel, in channel order.
pub open spec fn restore_commands(snapshot: Seq<ChannelSnapshot>, restore_captured: bool) -> Seq<RestoreCommand> {
    Seq::new(
        snapshot.len(),
        |i: int| RestoreCommand { channel: i as usize, state: restored_state(snapshot[i], restore_captured) },
    )
}

/// The channels after the commands have been carried out in order; a command
/// for a channel that does not exist changes nothing.
pub open spec fn apply_commands(channels: Seq<ChannelState>, cmds: Seq<RestoreCommand>) -> Seq<ChannelState>
    decreases cmds.len(),
{
    if cmds.len() == 0 {
        channels
    } else {
        let prev = apply_commands(channels, cmds.drop_last());
        let c = cmds.last();
        if c.channel < prev.len() {
            prev.update(c.channel as int, c.state)
        } else {
            prev
        }
    }
}

/// Holds the channels' states captured before the control loop starts and
/// hands out their restoration exactly once.
pub struct ExitGuard {
    pub snapshot: Vec<ChannelSnapshot>,
    pub restore_captured: bool,
    pub fired: bool,
}

impl ExitGuard {
    /// A guard over the captured channels; with `restore_captured` false the
    /// channels are left at full speed instead.
    pub fn new(snapshot: Vec<ChannelSnapshot>, restore_captured: bool) -> (r: ExitGuard)
        ensures
            r.snapshot@ == snapshot@,
            r.restore_captured == restore_captured,
            !r.fired,
    {
        ExitGuard { snapshot, restore_captured, fired: false }
    }

    /// The restoration to carry out, each command on its own: every channel
    /// the first time, nothing after that.
    pub fn trigger(&mut self) -> (r: Vec<RestoreCommand>)
        ensures
            r@ == if old(self).fired {
                Seq::empty()
            } else {
                restore_commands(old(self).snapshot@, old(self).restore_captured)
            },
            final(self).fired,
            final(self).snapshot@ == old(self).snapshot@,
            final(self).restore_captured == old(self).restore_captured,
    {
        let mut cmds: Vec<RestoreCommand> = Vec::new();
        if self.fired {
            return cmds;
        }
        self.fired = true;
        let mut i: usize = 0;
        while i < self.snapshot.len()
            invariant
                i <= self.snapshot@.len(),
                self.snapshot@ == old(self).snapshot@,
                self.restore_captured == old(self).restore_captured,
                cmds@ =~= restore_commands(self.snapshot@, self.restore_captured).take(i as int),
            decreases self.snapshot@.len() - i,
        {
            let snap = self.snapshot[i];
            let state = if self.restore_captured {
                snap.state
            } else {
                ChannelState { enable: MANUAL_MODE, value: snap.max_raw }
            };
            cmds.push(RestoreCommand { channel: i, state });
            i = i + 1;
        }
        proof {
            assert(cmds@ =~= restore_commands(self.snapshot@, self.restore_captured));
        }
        cmds
    }
}

proof fn lemma_apply_prefix(channels: Seq<ChannelState>, snapshot: Seq<ChannelSnapshot>, restore_captured: bool, n: int)
    requires
        channels.len() == snapshot.len(),
        snapshot.len() <= usize::MAX,
        0 <= n <= snapshot.len(),
    ensures
        ({
            let after = apply_commands(channels, restore_commands(snapshot, restore_captured).take(n));
            &&& after.len() == channels.len()
            &&& forall|i: int| 0 <= i < n ==> after[i] == restored_state(snapshot[i], restore_captured)
            &&& forall|i: int| n <= i < channels.len() ==> after[i] == channels[i]
        }),
    decreases n,
{
    let all = restore_commands(snapshot, restore_captured);
    if n > 0 {
        lemma_apply_prefix(channels, snapshot, restore_captured, n - 1);
        assert(all.take(n).drop_last() =~= all.take(n - 1));
        assert(all.take(n).last() == all[n - 1]);
        assert(all[n - 1].channel == n - 1);
    } else {
        assert(all.take(0) =~= Seq::<RestoreCommand>::empty());
    }
}

/// Whatever state the channels were left in, carrying out the first
/// restoration puts every channel back as captured (or at full speed), and
/// the empty restoration of any later trigger changes nothing.
pub proof fn lemma_restoration_complete(
    channels: Seq<ChannelState>,
    snapshot: Seq<ChannelSnapshot>,
    restore_captured: bool,
)
    requires
        channels.len() == snapshot.len(),
        snapshot.len() <= usize::MAX,
    ensures
        ({
            let restored = apply_commands(channels, restore_commands(snapshot, restore_captured));
            &&& restored.len() == snapshot.len()
            &&& forall|i: int| 0 <= i < snapshot.len() ==> #[trigger] restored[i] == restored_state(snapshot[i], restore_captured)
            &&& restore_captured ==> forall|i: int| 0 <= i < snapshot.len() ==> #[trigger] restored[i] == snapshot[i].state
            &&& apply_commands(restored, Seq::empty()) == restored
        }),
{
    let all = restore_commands(snapshot, restore_captured);
    lemma_apply_prefix(channels, snapshot, restore_captured, snapshot.len() as int);
    assert(all.take(snapshot.len() as int) =~= all);
}

} // verus!
