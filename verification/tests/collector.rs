use incgc::locked::LockedCell;
use incgc::{Arena, CollectionPhase, Colour, Gc, Pacing, Weak};

type Node = (i32, LockedCell<Option<Gc>>);

fn eager_pacing() -> Pacing {
    Pacing {
        trigger_bytes: None,
        trigger_allocations: Some(0),
        mark_stride: 1,
        sweep_stride: 1,
    }
}

fn never_pacing() -> Pacing {
    Pacing {
        trigger_bytes: None,
        trigger_allocations: None,
        mark_stride: 16,
        sweep_stride: 8,
    }
}

#[test]
fn scenario_three_nodes() {
    // root -> A -> B, A -> C; collection keeps all three.
    let mut a = Arena::<Vec<Gc>, Vec<Gc>>::new(Vec::new());
    let b = Gc::new(Vec::new(), &mut a.mutation);
    let c = Gc::new(Vec::new(), &mut a.mutation);
    let node_a = Gc::new(vec![b, c], &mut a.mutation);
    a.view_mut().push(node_a);

    assert_eq!(a.allocations(), 3);
    a.complete_collection();
    assert_eq!(a.allocations(), 3);

    // An unrelated object D unreachable from the root is reclaimed.
    let _d = Gc::new(Vec::new(), &mut a.mutation);
    assert_eq!(a.allocations(), 4);
    a.complete_collection();
    assert_eq!(a.allocations(), 3);
}

#[test]
fn allocations_count_grows_by_one() {
    let mut a = Arena::<Vec<Gc>, Node>::new(Vec::new());
    for i in 0..5 {
        assert_eq!(a.allocations(), i);
        let gc = Gc::new((i as i32, LockedCell::new(None)), &mut a.mutation);
        a.view_mut().push(gc);
        assert_eq!(a.allocations(), i + 1);
    }
}

#[test]
fn weak_upgrade_fails_after_collection() {
    let mut a = Arena::<Vec<Gc>, Node>::new(Vec::new());
    let kept = Gc::new((1, LockedCell::new(None)), &mut a.mutation);
    a.view_mut().push(kept);
    let doomed = Gc::new((2, LockedCell::new(None)), &mut a.mutation);
    let w = Gc::downgrade(doomed);

    assert!(w.upgrade(&a.mutation).is_some());
    a.complete_collection();
    assert!(w.upgrade(&a.mutation).is_none());
    assert!(Gc::downgrade(kept).upgrade(&a.mutation).is_some());
}

#[test]
fn weak_empty_never_upgrades() {
    let a = Arena::<Vec<Gc>, Node>::new(Vec::new());
    let w = Weak::new();
    assert!(w.upgrade(&a.mutation).is_none());
}

#[test]
fn weak_placeholder_retained_then_reclaimed() {
    // X (reachable) holds a weak reference to Y (otherwise unreachable).
    type P = (Option<Gc>, Weak);
    let mut a = Arena::<Vec<Gc>, P>::new(Vec::new());
    let y = Gc::new((None, Weak::new()), &mut a.mutation);
    let x = Gc::new((None, Gc::downgrade(y)), &mut a.mutation);
    a.view_mut().push(x);
    let wy = Gc::downgrade(y);

    assert_eq!(a.allocations(), 2);
    a.complete_collection();
    // Y's payload is gone — the weak handle observes "absent" — but its
    // record is retained as a dead placeholder.
    assert_eq!(a.allocations(), 2);
    assert!(wy.upgrade(&a.mutation).is_none());

    // A further collection removes the placeholder entirely; the weak
    // handle still answers "absent" because slot indices are never reused.
    a.complete_collection();
    assert_eq!(a.allocations(), 1);
    assert!(wy.upgrade(&a.mutation).is_none());
}

#[test]
fn incremental_matches_full() {
    fn build(pacing: Pacing) -> Arena<Vec<Gc>, Vec<Gc>> {
        let mut a = Arena::new_paced(Vec::new(), pacing);
        let b = Gc::new(Vec::new(), &mut a.mutation);
        let c = Gc::new(vec![b], &mut a.mutation);
        a.view_mut().push(c);
        let _garbage1 = Gc::new(Vec::new(), &mut a.mutation);
        let _garbage2 = Gc::new(vec![b], &mut a.mutation);
        a
    }

    let mut full = build(eager_pacing());
    full.complete_collection();

    let mut stepped = build(eager_pacing());
    stepped.collect_incrementally();

    let mut pulsed = build(eager_pacing());
    let mut steps = 0;
    loop {
        pulsed.run_collection();
        steps += 1;
        if pulsed.mutation.context.phase == CollectionPhase::Sleep && steps > 1 {
            break;
        }
        assert!(steps < 100);
    }

    assert_eq!(full.allocations(), 2);
    assert_eq!(stepped.allocations(), 2);
    assert_eq!(pulsed.allocations(), 2);
}

#[test]
fn mutation_mid_cycle_survives() {
    let mut a = Arena::<Vec<Gc>, Node>::new_paced(Vec::new(), eager_pacing());
    let first = Gc::new((1, LockedCell::new(None)), &mut a.mutation);
    a.view_mut().push(first);

    // Begin a cycle and make some marking progress.
    a.run_collection();
    assert_eq!(a.mutation.context.phase, CollectionPhase::Mark);
    a.run_collection();

    // Mid-cycle, store a freshly allocated object under the root.
    let fresh = Gc::new((2, LockedCell::new(None)), &mut a.mutation);
    a.view_mut().push(fresh);
    let w = Gc::downgrade(fresh);

    let mut steps = 0;
    while a.mutation.context.phase != CollectionPhase::Sleep {
        a.run_collection();
        steps += 1;
        assert!(steps < 100);
    }

    // The object allocated after marking began was not collected.
    assert_eq!(a.allocations(), 2);
    assert!(w.upgrade(&a.mutation).is_some());
}

#[test]
fn write_barrier_retraces_blackened_object() {
    let mut a = Arena::<Vec<Gc>, Node>::new_paced(Vec::new(), eager_pacing());
    let holder = Gc::new((1, LockedCell::new(None)), &mut a.mutation);
    a.view_mut().push(holder);
    let orphan = Gc::new((2, LockedCell::new(None)), &mut a.mutation);
    let w = Gc::downgrade(orphan);

    // Start the cycle, then mark until the holder has been blackened;
    // the orphan is still White and headed for the sweep.
    a.run_collection();
    let mut steps = 0;
    while a.mutation.context.slots[holder.as_ptr()].colour != Colour::Black {
        a.run_collection();
        steps += 1;
        assert!(steps < 100);
    }
    assert_eq!(a.mutation.context.slots[orphan.as_ptr()].colour, Colour::White);

    // Store the orphan into the already-traced holder.  The write barrier
    // re-grays the holder, so the orphan is rediscovered this cycle.
    let prev = a
        .mutation
        .write(holder, (1, LockedCell::new(Some(orphan))));
    assert_eq!(prev.0, 1);

    let mut steps = 0;
    while a.mutation.context.phase != CollectionPhase::Sleep {
        a.run_collection();
        steps += 1;
        assert!(steps < 100);
    }

    assert_eq!(a.allocations(), 2);
    assert!(w.upgrade(&a.mutation).is_some());
}

#[test]
fn disabled_triggers_never_wake() {
    let mut a = Arena::<Vec<Gc>, Node>::new_paced(Vec::new(), never_pacing());
    for i in 0..10 {
        let _ = Gc::new((i, LockedCell::new(None)), &mut a.mutation);
    }
    for _ in 0..20 {
        a.run_collection();
        assert_eq!(a.mutation.context.phase, CollectionPhase::Sleep);
    }
    // Nothing was collected because no cycle ever began...
    assert_eq!(a.allocations(), 10);
    // ...but an explicit full collection still reclaims the garbage.
    a.complete_collection();
    assert_eq!(a.allocations(), 0);
}

#[test]
fn pacing_default_values() {
    let p = Pacing::default();
    assert_eq!(p.trigger_bytes, Some(4192));
    assert_eq!(p.trigger_allocations, Some(64));
    assert_eq!(p.mark_stride, 16);
    assert_eq!(p.sweep_stride, 8);
}

#[test]
fn pacing_should_wake() {
    let p = Pacing {
        trigger_bytes: Some(100),
        trigger_allocations: Some(64),
        mark_stride: 16,
        sweep_stride: 8,
    };
    assert!(!p.should_wake(63, 99));
    assert!(p.should_wake(64, 0));
    assert!(p.should_wake(0, 100));
    assert!(!never_pacing().should_wake(1000, 1000000));
}

#[test]
fn read_and_write_payload() {
    let mut a = Arena::<Vec<Gc>, Node>::new(Vec::new());
    let gc = Gc::new((7, LockedCell::new(None)), &mut a.mutation);
    a.view_mut().push(gc);
    assert_eq!(a.mutation.read(gc).0, 7);
    let prev = a.mutation.write(gc, (8, LockedCell::new(None)));
    assert_eq!(prev.0, 7);
    assert_eq!(a.mutation.read(gc).0, 8);
    a.complete_collection();
    assert_eq!(a.mutation.read(gc).0, 8);
}
