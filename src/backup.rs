use vstd::prelude::*;

verus! {

/// Where the recurring backup cycle stands.
#[derive(Clone, Copy, Debug, PartialEq, Eq, Structural)]
pub enum BackupPhase {
    /// Waiting for the next period to begin.
    Idle,
    /// A snapshot of the stores has been asked for.
    Snapshotting,
    /// Delivering the snapshot to destination `next`; `failed` earlier
    /// destinations did not take it.
    Delivering { next: usize, failed: usize },
}

/// What the runner of the cycle reports back.
#[derive(Clone, Copy, Debug, PartialEq, Eq, Structural)]
pub enum BackupEvent {
    /// The period is over.
    TimerFired,
    /// The snapshot was taken and encoded.
    SnapshotReady,
    /// The stores could not be read or the snapshot not encoded.
    StoreFailed,
    /// The current destination took the snapshot.
    Delivered,
    /// Delivery to the current destination failed or timed out.
    DeliveryFailed,
}

/// What the runner is to do next.
#[derive(Clone, Copy, Debug, PartialEq, Eq, Structural)]
pub enum BackupAction {
    /// Take and encode a snapshot of the whole dataset.
    TakeSnapshot,
    /// Send the snapshot to the destination with this index.
    Deliver { dest: usize },
    /// The cycle is over: wait for the next period. `failed` destinations
    /// did not take the snapshot; `skipped` means no snapshot could be made.
    Sleep { failed: usize, skipped: bool },
    /// The event does not belong to this phase: nothing to do.
    Ignore,
}

/// A phase that can occur with `destinations` destinations configured.
pub open spec fn phase_ok(phase: BackupPhase, destinations: usize) -> bool {
    match phase {
        BackupPhase::Delivering { next, failed } => next < destinations && failed <= next,
        _ => true,
    }
}

/// One step of the cycle: from the phase and an event to the next phase and
/// the action to perform.
///
/// A period starts with a snapshot; a failure to take it skips the cycle.
/// The snapshot then goes to every destination in turn, each exactly once,
/// and a failed delivery is counted and never stops the others. After the
/// last destination the cycle returns to `Idle`.
pub fn backup_step(phase: BackupPhase, event: BackupEvent, destinations: usize) -> (r: (
    BackupPhase,
    BackupAction,
))
    requires
        phase_ok(phase, destinations),
    ensures
        phase_ok(r.0, destinations),
        match (phase, event) {
            (BackupPhase::Idle, BackupEvent::TimerFired) => r == (
                BackupPhase::Snapshotting,
                BackupAction::TakeSnapshot,
            ),
            (BackupPhase::Snapshotting, BackupEvent::StoreFailed) => r == (
                BackupPhase::Idle,
                BackupAction::Sleep { failed: 0, skipped: true },
            ),
            (BackupPhase::Snapshotting, BackupEvent::SnapshotReady) => if destinations == 0 {
                r == (BackupPhase::Idle, BackupAction::Sleep { failed: 0, skipped: false })
            } else {
                r == (BackupPhase::Delivering { next: 0, failed: 0 }, BackupAction::Deliver { dest: 0 })
            },
            (BackupPhase::Delivering { next, failed }, BackupEvent::Delivered)
            | (BackupPhase::Delivering { next, failed }, BackupEvent::DeliveryFailed) => {
                let f = if event == BackupEvent::DeliveryFailed {
                    failed + 1
                } else {
                    failed as int
                };
                if next + 1 < destinations {
                    r == (
                        BackupPhase::Delivering { next: (next + 1) as usize, failed: f as usize },
                        BackupAction::Deliver { dest: (next + 1) as usize },
                    )
                } else {
                    r == (BackupPhase::Idle, BackupAction::Sleep { failed: f as usize, skipped: false })
                }
            },
            _ => r == (phase, BackupAction::Ignore),
        },
{
    match (phase, event) {
        (BackupPhase::Idle, BackupEvent::TimerFired) => (
            BackupPhase::Snapshotting,
            BackupAction::TakeSnapshot,
        ),
        (BackupPhase::Snapshotting, BackupEvent::StoreFailed) => (
            BackupPhase::Idle,
            BackupAction::Sleep { failed: 0, skipped: true },
        ),
        (BackupPhase::Snapshotting, BackupEvent::SnapshotReady) => {
            if destinations == 0 {
                (BackupPhase::Idle, BackupAction::Sleep { failed: 0, skipped: false })
            } else {
                (BackupPhase::Delivering { next: 0, failed: 0 }, BackupAction::Deliver { dest: 0 })
            }
        },
        (BackupPhase::Delivering { next, failed }, BackupEvent::Delivered)
        | (BackupPhase::Delivering { next, failed }, BackupEvent::DeliveryFailed) => {
            let f = if event == BackupEvent::DeliveryFailed {
                failed + 1
            } else {
                failed
            };
            if next + 1 < destinations {
                (
                    BackupPhase::Delivering { next: next + 1, failed: f },
                    BackupAction::Deliver { dest: next + 1 },
                )
            } else {
                (BackupPhase::Idle, BackupAction::Sleep { failed: f, skipped: false })
            }
        },
        _ => (phase, BackupAction::Ignore),
    }
}

} // verus!
