use facial::media_io::{
    duration_micros_saturating, ClassDiagnostics, CoordinatorClock, IoDiagnostics, IoPolicy,
    ManualClock, MediaIoCoordinator, PermitOutcome, RootIdentity, RootKind, RootLimits,
    SystemClock, WaitError, WaitTurn, WorkClass,
};

fn test_policy(total: usize) -> IoPolicy {
    let limits = RootLimits {
        total,
        interactive_reserved: usize::from(total > 1),
        bulk_reserved: usize::from(total > 1),
        playback_bulk_limit: 1,
    };
    IoPolicy {
        local: limits,
        remote: limits,
        unknown: limits,
        playback_hysteresis_us: 100_000,
        priority_burst: 2,
    }
}

fn manual(total: usize) -> MediaIoCoordinator<ManualClock> {
    MediaIoCoordinator::with_clock(test_policy(total), ManualClock::new(0))
}

fn remote(name: &str) -> RootIdentity {
    RootIdentity::new(name, 1, RootKind::Remote)
}

fn class_diagnostics(
    diagnostics: &IoDiagnostics,
    root: &RootIdentity,
    class: WorkClass,
) -> ClassDiagnostics {
    *diagnostics
        .roots
        .iter()
        .find(|candidate| candidate.root.same(root))
        .and_then(|candidate| candidate.classes.iter().find(|candidate| candidate.class == class))
        .expect("class diagnostics exist")
}

#[test]
fn remote_limits_and_visible_reservation_are_enforced() {
    let mut coordinator = manual(3);
    let root = remote("nas");

    let blocker_a = coordinator.enqueue(root.clone(), WorkClass::Scan);
    let blocker_b = coordinator.enqueue(root.clone(), WorkClass::Scan);
    let permit_a = blocker_a.try_acquire(&mut coordinator).unwrap().unwrap();
    let permit_b = blocker_b.try_acquire(&mut coordinator).unwrap().unwrap();
    let visible = coordinator.enqueue(root.clone(), WorkClass::Visible);
    let third_bulk = coordinator.enqueue(root.clone(), WorkClass::Prefetch);

    assert!(third_bulk.try_acquire(&mut coordinator).unwrap().is_none());
    let visible_permit = visible.try_acquire(&mut coordinator).unwrap().unwrap();
    let diagnostics = coordinator.diagnostics();
    assert_eq!(class_diagnostics(&diagnostics, &root, WorkClass::Prefetch).queued, 1);
    assert_eq!(
        diagnostics.roots.iter().find(|item| item.root.same(&root)).unwrap().limits.total,
        3
    );
    for permit in [permit_a, permit_b, visible_permit] {
        permit.finish(&mut coordinator, PermitOutcome::Dropped);
    }
}

#[test]
fn priority_is_bounded_and_bulk_gets_a_fair_turn() {
    let mut coordinator = manual(1);
    let root = remote("fair");
    let blocker = coordinator.enqueue(root.clone(), WorkClass::Scan);
    let blocker_permit = blocker.try_acquire(&mut coordinator).unwrap().unwrap();

    let playback_one = coordinator.enqueue(root.clone(), WorkClass::Playback);
    let playback_two = coordinator.enqueue(root.clone(), WorkClass::Playback);
    let playback_three = coordinator.enqueue(root.clone(), WorkClass::Playback);
    let bulk = coordinator.enqueue(root.clone(), WorkClass::Scan);
    blocker_permit.finish(&mut coordinator, PermitOutcome::Dropped);

    let first = playback_one.try_acquire(&mut coordinator).unwrap().unwrap();
    first.finish(&mut coordinator, PermitOutcome::Dropped);
    let second = playback_two.try_acquire(&mut coordinator).unwrap().unwrap();
    second.finish(&mut coordinator, PermitOutcome::Dropped);

    // The burst is capped at two, so the queued bulk request now advances.
    assert!(playback_three.try_acquire(&mut coordinator).unwrap().is_none());
    let bulk_permit = bulk.try_acquire(&mut coordinator).unwrap().unwrap();
    bulk_permit.finish(&mut coordinator, PermitOutcome::Dropped);
    assert!(playback_three.try_acquire(&mut coordinator).unwrap().is_some());
}

#[test]
fn whole_folder_sweeps_yield_to_thumbnail_prefetch_but_still_get_a_turn() {
    let mut coordinator = manual(1);
    let root = remote("layers");
    let blocker = coordinator.enqueue(root.clone(), WorkClass::Scan);
    let blocker_permit = blocker.try_acquire(&mut coordinator).unwrap().unwrap();

    let sweep_one = coordinator.enqueue(root.clone(), WorkClass::Background);
    let sweep_two = coordinator.enqueue(root.clone(), WorkClass::Background);
    let prefetch_one = coordinator.enqueue(root.clone(), WorkClass::Prefetch);
    let prefetch_two = coordinator.enqueue(root.clone(), WorkClass::Prefetch);
    blocker_permit.finish(&mut coordinator, PermitOutcome::Dropped);

    let first = prefetch_one.try_acquire(&mut coordinator).unwrap().unwrap();
    assert!(
        sweep_one.try_acquire(&mut coordinator).unwrap().is_none(),
        "a whole-folder sweep took the permit ahead of queued overscan thumbnail work"
    );
    first.finish(&mut coordinator, PermitOutcome::Dropped);
    let second = prefetch_two.try_acquire(&mut coordinator).unwrap().unwrap();
    second.finish(&mut coordinator, PermitOutcome::Dropped);

    assert!(
        sweep_one.try_acquire(&mut coordinator).unwrap().is_some(),
        "the sweep never got a fair turn, so a size sort could never settle"
    );
    sweep_two.discard(&mut coordinator);
}

#[test]
fn cancellation_drop_and_permit_drop_release_capacity() {
    let mut coordinator = manual(1);
    let root = remote("cleanup");
    let first = coordinator.enqueue(root.clone(), WorkClass::Visible);
    let first_permit = first.try_acquire(&mut coordinator).unwrap().unwrap();

    let cancelled = coordinator.enqueue(root.clone(), WorkClass::Scan);
    assert!(cancelled.cancel(&mut coordinator));
    assert!(matches!(cancelled.try_acquire(&mut coordinator), Err(WaitError::Cancelled)));
    let dropped_request = coordinator.enqueue(root.clone(), WorkClass::Prefetch);
    dropped_request.discard(&mut coordinator);
    let next = coordinator.enqueue(root.clone(), WorkClass::Playback);
    first_permit.finish(&mut coordinator, PermitOutcome::Dropped);
    let next_permit = next.try_acquire(&mut coordinator).unwrap().unwrap();
    next_permit.finish(&mut coordinator, PermitOutcome::Dropped);

    let diagnostics = coordinator.diagnostics();
    assert_eq!(
        diagnostics
            .roots
            .iter()
            .find(|item| item.root.same(&root))
            .unwrap()
            .classes
            .iter()
            .map(|class| class.active)
            .sum::<usize>(),
        0
    );
    assert_eq!(class_diagnostics(&diagnostics, &root, WorkClass::Scan).cancelled, 1);
    assert_eq!(
        class_diagnostics(&diagnostics, &root, WorkClass::Playback).release_outcomes.dropped,
        1
    );
}

#[test]
fn background_wait_is_woken_by_cancellation() {
    let mut coordinator = manual(1);
    let root = remote("wait-cancel");
    let blocker = coordinator.enqueue(root.clone(), WorkClass::Visible);
    let blocker_permit = blocker.try_acquire(&mut coordinator).unwrap().unwrap();
    let pending = coordinator.enqueue(root, WorkClass::Scan);
    assert!(matches!(pending.wait(&mut coordinator), WaitTurn::Park));
    assert!(pending.cancel(&mut coordinator));
    pending.woken_at(&mut coordinator, 0);
    assert!(matches!(
        pending.wait(&mut coordinator),
        WaitTurn::Refused(WaitError::Cancelled)
    ));
    blocker_permit.finish(&mut coordinator, PermitOutcome::Success);
}

#[test]
fn roots_and_generations_have_independent_capacity() {
    let mut coordinator = manual(1);
    let root_a = remote("nas-a");
    let root_b = remote("nas-b");
    let remapped_a = RootIdentity::new("nas-a", 2, RootKind::Remote);

    let a = coordinator.enqueue(root_a, WorkClass::Scan);
    let b = coordinator.enqueue(root_b, WorkClass::Scan);
    let remapped = coordinator.enqueue(remapped_a, WorkClass::Scan);
    let permits = [
        a.try_acquire(&mut coordinator).unwrap().unwrap(),
        b.try_acquire(&mut coordinator).unwrap().unwrap(),
        remapped.try_acquire(&mut coordinator).unwrap().unwrap(),
    ];
    assert_eq!(coordinator.diagnostics().roots.len(), 3);
    for permit in permits {
        permit.finish(&mut coordinator, PermitOutcome::Dropped);
    }
}

#[test]
fn playback_throttle_retains_one_bulk_lane_then_expires_after_hysteresis() {
    let mut coordinator = manual(3);
    let root = remote("playback");
    let lease = coordinator.begin_playback(root.clone());
    let first = coordinator.enqueue(root.clone(), WorkClass::Scan);
    let second = coordinator.enqueue(root.clone(), WorkClass::Metadata);
    let third = coordinator.enqueue(root.clone(), WorkClass::Prefetch);

    let first_permit = first.try_acquire(&mut coordinator).unwrap().unwrap();
    assert!(second.try_acquire(&mut coordinator).unwrap().is_none());
    assert!(third.try_acquire(&mut coordinator).unwrap().is_none());
    lease.finish(&mut coordinator);
    coordinator.clock_mut().advance(99_000);
    coordinator.refresh();
    assert!(second.try_acquire(&mut coordinator).unwrap().is_none());

    coordinator.clock_mut().advance(2_000);
    coordinator.refresh();
    let second_permit = second.try_acquire(&mut coordinator).unwrap().unwrap();
    assert!(third.try_acquire(&mut coordinator).unwrap().is_none());
    let root_diagnostics = coordinator
        .diagnostics()
        .roots
        .into_iter()
        .find(|item| item.root.same(&root))
        .unwrap();
    assert!(!root_diagnostics.playback_throttled);
    assert_eq!(root_diagnostics.effective_bulk_limit, 2);
    first_permit.finish(&mut coordinator, PermitOutcome::Dropped);
    let third_permit = third.try_acquire(&mut coordinator).unwrap().unwrap();
    second_permit.finish(&mut coordinator, PermitOutcome::Dropped);
    third_permit.finish(&mut coordinator, PermitOutcome::Dropped);
}

#[test]
fn diagnostics_attribute_cache_and_filesystem_timing() {
    let mut coordinator = MediaIoCoordinator::with_policy(test_policy(1));
    let root = remote("diagnostics");
    coordinator.record_cache_hit(&root, WorkClass::Visible);
    coordinator.record_filesystem_duration(&root, WorkClass::Visible, 250);
    let diagnostics = class_diagnostics(&coordinator.diagnostics(), &root, WorkClass::Visible);
    assert_eq!(diagnostics.cache_hits, 1);
    assert_eq!(diagnostics.filesystem_operations, 1);
    assert_eq!(diagnostics.filesystem_total_us, 250);
    assert_eq!(diagnostics.filesystem_max_us, 250);
}

#[test]
fn granted_requests_cannot_be_taken_twice() {
    let mut coordinator = manual(2);
    let request = coordinator.enqueue(remote("twice"), WorkClass::Visible);
    let permit = request.try_acquire(&mut coordinator).unwrap().unwrap();
    assert!(matches!(request.try_acquire(&mut coordinator), Err(WaitError::AlreadyAcquired)));
    assert!(!request.cancel(&mut coordinator));
    assert_eq!(permit.class(), WorkClass::Visible);
    assert!(permit.root().same(request.root()));
    permit.finish(&mut coordinator, PermitOutcome::Error);
    let report = class_diagnostics(&coordinator.diagnostics(), request.root(), WorkClass::Visible);
    assert_eq!((report.active, report.release_outcomes.error), (0, 1));
}

#[test]
fn queue_waits_are_measured() {
    let mut coordinator = manual(1);
    let root = remote("waits");
    let first = coordinator.enqueue(root.clone(), WorkClass::Visible);
    let permit = first.try_acquire(&mut coordinator).unwrap().unwrap();
    let second = coordinator.enqueue(root.clone(), WorkClass::Visible);
    coordinator.clock_mut().advance(40);
    permit.finish(&mut coordinator, PermitOutcome::Success);
    assert!(matches!(second.wait(&mut coordinator), WaitTurn::Acquired(_)));
    let report = class_diagnostics(&coordinator.diagnostics(), &root, WorkClass::Visible);
    assert_eq!(report.queue_wait_total_us, 40);
    assert_eq!(report.queue_wait_max_us, 40);
    assert_eq!(report.max_queued, 1);
}

#[test]
fn system_clocks_do_not_run_backwards() {
    let clock = SystemClock::default();
    let first = clock.now_micros();
    let mut later = clock.now_micros();
    while later < first + 50 {
        later = clock.now_micros();
    }
    assert!(later >= first + 50);
    assert_eq!(duration_micros_saturating(u128::MAX), u64::MAX);
    assert_eq!(duration_micros_saturating(12), 12);
}

#[test]
fn default_policies_are_within_their_totals() {
    let policy = IoPolicy::default();
    for kind in [RootKind::Local, RootKind::Remote, RootKind::Unknown] {
        let limits = policy.limits(kind);
        assert!(limits.total >= 1);
        assert!(limits.interactive_reserved + limits.bulk_reserved <= limits.total);
    }
    assert!(WorkClass::Playback.is_interactive() && !WorkClass::Scan.is_interactive());
    assert_eq!((WorkClass::Playback.priority(), WorkClass::Background.priority()), (0, 5));
    assert_eq!(WorkClass::all().len(), 6);
    assert_eq!(WaitError::Cancelled.message(), "I/O request was cancelled");
}

#[test]
fn ended_coordinators_refuse_everyone() {
    let mut coordinator = manual(1);
    let root = remote("shutdown");
    let blocker = coordinator.enqueue(root.clone(), WorkClass::Visible);
    let _permit = blocker.try_acquire(&mut coordinator).unwrap().unwrap();
    let pending = coordinator.enqueue(root, WorkClass::Scan);
    assert!(matches!(pending.wait(&mut coordinator), WaitTurn::Park));
    coordinator.shut_down();
    assert!(matches!(
        pending.wait(&mut coordinator),
        WaitTurn::Refused(WaitError::CoordinatorDropped)
    ));
    assert!(matches!(
        pending.try_acquire(&mut coordinator),
        Err(WaitError::CoordinatorDropped)
    ));
}

#[test]
fn counters_add_up_and_reservations_hold() {
    let mut coordinator = manual(3);
    let root = remote("counts");
    let mut permits = Vec::new();
    let mut requests = Vec::new();
    for i in 0..12 {
        let class = WorkClass::all()[i % 6];
        requests.push(coordinator.enqueue(root.clone(), class));
    }
    requests[11].cancel(&mut coordinator);
    for request in &requests {
        if let Ok(Some(permit)) = request.try_acquire(&mut coordinator) {
            permits.push(permit);
        }
        assert!(!matches!(request.try_acquire(&mut coordinator), Ok(Some(_))));
    }
    if let Some(permit) = permits.pop() {
        permit.finish(&mut coordinator, PermitOutcome::Stale);
    }
    let report = coordinator.diagnostics();
    let classes = &report.roots[0].classes;
    let active = |interactive: bool| -> usize {
        classes
            .iter()
            .filter(|c| c.class.is_interactive() == interactive)
            .map(|c| c.active)
            .sum()
    };
    assert!(active(true) <= 2 && active(false) <= 2 && active(true) + active(false) <= 3);
    for c in classes {
        let o = c.release_outcomes;
        let ended = o.success + o.error + o.cancelled + o.stale + o.worker_shutdown + o.dropped;
        assert_eq!(c.granted, c.active as u64 + c.released);
        assert_eq!(c.enqueued, (c.queued + c.active) as u64 + ended);
    }
}
