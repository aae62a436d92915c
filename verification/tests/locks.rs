use stdio::sync::{Mutex, ReentrantMutex, SyncOnceCell};

#[test]
fn a_lock_is_free_when_it_was_given_back_as_often_as_taken() {
    let mut lock = ReentrantMutex::new(5u8);
    let mut guards = Vec::new();
    for _ in 0..4 {
        guards.push(lock.try_lock(1).unwrap());
    }
    while let Some(guard) = guards.pop() {
        assert!(lock.try_lock(2).is_none());
        *lock.get_mut(&guard) += 1;
        lock.unlock(guard);
    }
    let guard = lock.lock(2).unwrap();
    assert_eq!(*lock.get(&guard), 9);
    assert!(lock.is_countable(1));
    assert!(lock.is_countable(2));
}

#[test]
fn a_poisoned_lock_says_so_and_is_taken_all_the_same() {
    let mut lock = Mutex::new(0u8);
    let guard = match lock.lock(1) {
        Some(Ok(guard)) => guard,
        _ => panic!("the lock is free"),
    };
    assert!(lock.lock(1).is_none());
    assert!(lock.lock(2).is_none());
    *lock.get_mut(&guard) = 7;
    lock.unlock(guard, true);
    let guard = match lock.lock(2) {
        Some(Err(poisoned)) => poisoned.into_inner(),
        _ => panic!("the lock is poisoned"),
    };
    assert_eq!(*lock.get(&guard), 7);
    lock.unlock(guard, false);
    assert!(matches!(lock.lock(1), Some(Err(_))));
    *lock.inner_mut() = 8;
    assert_eq!(*lock.inner(), 8);
}

#[test]
fn a_cell_is_filled_once() {
    let mut cell: SyncOnceCell<u8> = SyncOnceCell::new();
    assert!(cell.get_mut().is_none());
    assert_eq!(*cell.get_or_init(|| 3), 3);
    *cell.get_or_init(|| 4) += 1;
    assert_eq!(cell.get_mut().map(|value| *value), Some(4));
}
