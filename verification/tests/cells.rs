use incgc::locked::{LockedCell, LockedOnceCell, LockedRefCell};
use incgc::{Arena, Gc, UniqueGc};

#[test]
fn locked_cell_basics() {
    let mut c = LockedCell::new(5u32);
    assert_eq!(c.get(), 5);
    c.set(6);
    assert_eq!(c.get(), 6);
    let prev = c.replace(7);
    assert_eq!(prev, 6);
    *c.get_mut() = 8;
    assert_eq!(c.into_inner(), 8);
}

#[test]
fn locked_ref_cell_basics() {
    let mut c = LockedRefCell::new(String::from("left"));
    assert_eq!(c.borrow().as_str(), "left");
    c.get_mut().push_str("-right");
    assert_eq!(c.into_inner(), "left-right");
}

#[test]
fn locked_once_cell_basics() {
    let mut c = LockedOnceCell::new();
    assert!(c.get().is_none());
    assert!(c.set(3i64).is_ok());
    assert_eq!(c.set(4i64), Err(4));
    assert_eq!(c.get(), Some(&3));
    if let Some(v) = c.get_mut() {
        *v = 5;
    }
    assert_eq!(c.take(), Some(5));
    assert!(c.get().is_none());
    assert_eq!(c.into_inner(), None);
}

#[test]
fn unique_gc_uninit_then_write() {
    let mut a = Arena::<Vec<Gc>, u64>::new(Vec::new());
    let slot = UniqueGc::new_uninit(&mut a.mutation);
    let slot = slot.write(41, &mut a.mutation);
    let gc = UniqueGc::into_gc(slot);
    a.view_mut().push(gc);
    assert_eq!(*a.mutation.read(gc), 41);
    a.complete_collection();
    assert_eq!(a.allocations(), 1);
    assert_eq!(*a.mutation.read(gc), 41);
}

#[test]
fn unique_gc_uninit_is_collected_unwritten() {
    let mut a = Arena::<Vec<Gc>, u64>::new(Vec::new());
    let _slot = UniqueGc::new_uninit(&mut a.mutation);
    assert_eq!(a.allocations(), 1);
    a.complete_collection();
    assert_eq!(a.allocations(), 0);
}

#[test]
fn string_allocation() {
    let mut a = incgc::Arena::<Option<Gc>, String>::new(None);
    let gc = Gc::from_str("Hello, World!", &mut a.mutation);
    *a.view_mut() = Some(gc);
    assert_eq!(a.mutation.read(gc).as_str(), "Hello, World!");
    a.complete_collection();
    assert_eq!(a.allocations(), 1);
    assert_eq!(a.mutation.read(gc).as_str(), "Hello, World!");
}
