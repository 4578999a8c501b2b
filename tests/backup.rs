use daynotes::backup::{backup_step, BackupAction, BackupEvent, BackupPhase};

#[test]
fn cycle_delivers_to_every_destination_despite_failures() {
    let (p, a) = backup_step(BackupPhase::Idle, BackupEvent::TimerFired, 3);
    assert_eq!(a, BackupAction::TakeSnapshot);
    let (p, a) = backup_step(p, BackupEvent::SnapshotReady, 3);
    assert_eq!(a, BackupAction::Deliver { dest: 0 });
    let (p, a) = backup_step(p, BackupEvent::DeliveryFailed, 3);
    assert_eq!(a, BackupAction::Deliver { dest: 1 });
    let (p, a) = backup_step(p, BackupEvent::Delivered, 3);
    assert_eq!(a, BackupAction::Deliver { dest: 2 });
    let (p, a) = backup_step(p, BackupEvent::DeliveryFailed, 3);
    assert_eq!(a, BackupAction::Sleep { failed: 2, skipped: false });
    assert_eq!(p, BackupPhase::Idle);
}

#[test]
fn store_failure_skips_the_cycle() {
    let (p, a) = backup_step(BackupPhase::Snapshotting, BackupEvent::StoreFailed, 2);
    assert_eq!(p, BackupPhase::Idle);
    assert_eq!(a, BackupAction::Sleep { failed: 0, skipped: true });
}

#[test]
fn no_destinations_means_straight_back_to_idle() {
    let (p, a) = backup_step(BackupPhase::Snapshotting, BackupEvent::SnapshotReady, 0);
    assert_eq!(p, BackupPhase::Idle);
    assert_eq!(a, BackupAction::Sleep { failed: 0, skipped: false });
}

#[test]
fn stray_events_are_ignored() {
    let (p, a) = backup_step(BackupPhase::Idle, BackupEvent::Delivered, 2);
    assert_eq!(p, BackupPhase::Idle);
    assert_eq!(a, BackupAction::Ignore);
    let d = BackupPhase::Delivering { next: 1, failed: 0 };
    assert_eq!(backup_step(d, BackupEvent::TimerFired, 2), (d, BackupAction::Ignore));
}
