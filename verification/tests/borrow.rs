use ecs_core::borrow_cell::{Borrow, BorrowState, EXCLUSIVE_BIT};
use ecs_core::error::BorrowError;

#[test]
fn reborrow() {
    let mut state = BorrowState::new();
    let _first_borrow = state.try_borrow(None, true, 0).unwrap();

    assert!(state.try_borrow(None, true, 0).is_ok());
    assert_eq!(
        std::mem::discriminant(&state.try_borrow_mut(None, true, 0).err().unwrap()),
        std::mem::discriminant(&BorrowError::Unique)
    );
}

#[test]
fn unique_reborrow() {
    let mut state = BorrowState::new();
    let _first_borrow = state.try_borrow_mut(None, true, 0).unwrap();

    assert_eq!(
        std::mem::discriminant(&state.try_borrow(None, true, 0).err().unwrap()),
        std::mem::discriminant(&BorrowError::Shared)
    );
    assert_eq!(
        std::mem::discriminant(&state.try_borrow_mut(None, true, 0).err().unwrap()),
        std::mem::discriminant(&BorrowError::Unique)
    );
}

#[test]
fn non_send_sync_policy() {
    // sendable to no other thread, shareable: exclusive only on the owning
    // thread, shared anywhere
    let owner = 7u64;
    let elsewhere = 8u64;
    let mut state = BorrowState::new();

    let unique = state.try_borrow_mut(Some(owner), true, owner).unwrap();
    state.release(unique);

    let shared = state.try_borrow(Some(owner), true, elsewhere).unwrap();
    state.release(shared);

    assert_eq!(
        state.try_borrow_mut(Some(owner), true, elsewhere).err(),
        Some(BorrowError::WrongThread)
    );
}

#[test]
fn non_sync_send_policy() {
    // sendable, not shareable: one borrow at a time, from any thread
    let mut state = BorrowState::new();

    let first = state.try_borrow(None, false, 3).unwrap();
    assert_eq!(
        state.try_borrow(None, false, 4).err(),
        Some(BorrowError::MultipleThreads)
    );
    assert_eq!(
        state.try_borrow_mut(None, false, 4).err(),
        Some(BorrowError::Unique)
    );
    state.release(first);

    let second = state.try_borrow(None, false, 4).unwrap();
    state.release(second);
    let unique = state.try_borrow_mut(None, false, 4).unwrap();
    state.release(unique);
}

#[test]
fn non_send_non_sync_policy() {
    // neither sendable nor shareable: all borrows only on the owning thread
    let owner = 1u64;
    let elsewhere = 2u64;
    let mut state = BorrowState::new();

    assert_eq!(
        state.try_borrow(Some(owner), false, elsewhere).err(),
        Some(BorrowError::WrongThread)
    );
    assert_eq!(
        state.try_borrow_mut(Some(owner), false, elsewhere).err(),
        Some(BorrowError::WrongThread)
    );

    let shared = state.try_borrow(Some(owner), false, owner).unwrap();
    state.release(shared);
}

#[test]
fn releasing_all_borrows_frees_the_cell() {
    let mut state = BorrowState::new();

    let a = state.try_borrow(None, true, 0).unwrap();
    let b = state.try_borrow(None, true, 0).unwrap();
    let c = state.try_borrow(None, true, 0).unwrap();
    assert_eq!(state.word, 3);

    state.release(a);
    state.release(b);
    state.release(c);
    assert_eq!(state.word, 0);

    let unique = state.try_borrow_mut(None, true, 0).unwrap();
    assert_eq!(unique, Borrow::Unique);
    state.release(unique);
    assert_eq!(state.word, 0);
}

#[test]
fn saturated_share_count_is_refused() {
    // one step below the exclusive mark: the count may not grow into it
    let mut state = BorrowState { word: EXCLUSIVE_BIT - 1 };
    assert_eq!(
        state.try_borrow(None, true, 0).err(),
        Some(BorrowError::TooManyBorrows)
    );
    assert_eq!(state.word, EXCLUSIVE_BIT - 1);
}
