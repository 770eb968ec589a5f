//! Shared-xor-exclusive borrow arbitration for one storage.
//!
//! A [`BorrowState`] is the state word of one storage's borrow cell. The top
//! bit set means an exclusive borrow is live; otherwise the word counts the
//! live shared borrows. Each cell also obeys a thread-affinity policy, given
//! by the `send` and `is_sync` arguments of the transitions: `send` names the
//! owning thread of a storage that must not move across threads, `is_sync`
//! says whether the storage may be shared between threads. Threads are
//! identified by plain tokens supplied by the caller.
//!
//! Transitions never block: they either succeed or report a
//! [`BorrowError`](crate::error::BorrowError).

use crate::error::BorrowError;
use vstd::prelude::*;

verus! {

/// The word value that marks a live exclusive borrow.
pub const EXCLUSIVE_BIT: u64 = 0x8000_0000_0000_0000;

/// A live borrow of one cell: the token handed out by a successful
/// transition, and taken back by [`BorrowState::release`].
#[derive(PartialEq, Eq, Structural, Debug)]
pub enum Borrow {
    /// A shared borrow; any number may be live at once.
    Shared,
    /// An exclusive borrow; excludes every other borrow.
    Unique,
}

/// The state word of one storage's borrow cell.
#[derive(PartialEq, Eq, Structural, Debug)]
pub struct BorrowState {
    pub word: u64,
}

impl BorrowState {
    /// A state word is well formed when it is either the exclusive mark or a
    /// plain shared count below it.
    pub open spec fn wf(self) -> bool {
        self.word <= EXCLUSIVE_BIT
    }

    /// Whether an exclusive borrow is live.
    pub open spec fn is_exclusive(self) -> bool {
        self.word == EXCLUSIVE_BIT
    }

    /// The number of live shared borrows.
    pub open spec fn shared_count(self) -> u64 {
        if self.word < EXCLUSIVE_BIT {
            self.word
        } else {
            0
        }
    }

    /// Whether no borrow at all is live.
    pub open spec fn is_free(self) -> bool {
        self.word == 0
    }

    /// Whether the policy `(send, is_sync)` lets `current_thread` take a
    /// shared borrow at all.
    pub open spec fn shared_allowed(send: Option<u64>, is_sync: bool, current_thread: u64) -> bool {
        match send {
            Option::None => true,
            Option::Some(owner) => is_sync || owner == current_thread,
        }
    }

    /// Whether the policy `(send, is_sync)` lets `current_thread` take an
    /// exclusive borrow at all.
    pub open spec fn exclusive_allowed(send: Option<u64>, current_thread: u64) -> bool {
        match send {
            Option::None => true,
            Option::Some(owner) => owner == current_thread,
        }
    }

    /// Returns a fresh cell state with no live borrow.
    pub fn new() -> (r: BorrowState)
        ensures
            r.is_free(),
            r.wf(),
    {
        BorrowState { word: 0 }
    }

    /// The outcome of a shared-borrow attempt on state `s` under the
    /// policy `(send, is_sync)` from thread `current_thread`.
    pub open spec fn shared_result(
        s: BorrowState,
        send: Option<u64>,
        is_sync: bool,
        current_thread: u64,
    ) -> Result<Borrow, BorrowError> {
        if !Self::shared_allowed(send, is_sync, current_thread) {
            Result::Err(BorrowError::WrongThread)
        } else if send is None && !is_sync && !s.is_free() {
            Result::Err(BorrowError::MultipleThreads)
        } else if s.is_exclusive() {
            Result::Err(BorrowError::Shared)
        } else if s.word + 1 == EXCLUSIVE_BIT {
            Result::Err(BorrowError::TooManyBorrows)
        } else {
            Result::Ok(Borrow::Shared)
        }
    }

    /// The state after a shared-borrow attempt: the count goes up on
    /// success, nothing moves on failure.
    pub open spec fn shared_post(
        s: BorrowState,
        send: Option<u64>,
        is_sync: bool,
        current_thread: u64,
    ) -> BorrowState {
        if Self::shared_result(s, send, is_sync, current_thread) is Ok {
            BorrowState { word: (s.word + 1) as u64 }
        } else {
            s
        }
    }

    /// The outcome of an exclusive-borrow attempt on state `s` under the
    /// policy `(send, is_sync)` from thread `current_thread`.
    pub open spec fn exclusive_result(
        s: BorrowState,
        send: Option<u64>,
        current_thread: u64,
    ) -> Result<Borrow, BorrowError> {
        if !Self::exclusive_allowed(send, current_thread) {
            Result::Err(BorrowError::WrongThread)
        } else if !s.is_free() {
            Result::Err(BorrowError::Unique)
        } else {
            Result::Ok(Borrow::Unique)
        }
    }

    /// The state after an exclusive-borrow attempt: the exclusive mark on
    /// success, nothing on failure.
    pub open spec fn exclusive_post(
        s: BorrowState,
        send: Option<u64>,
        current_thread: u64,
    ) -> BorrowState {
        if Self::exclusive_result(s, send, current_thread) is Ok {
            BorrowState { word: EXCLUSIVE_BIT }
        } else {
            s
        }
    }

    /// Tries to take a shared borrow under the policy `(send, is_sync)`,
    /// called from the thread identified by `current_thread`.
    ///
    /// A storage that is not `sync` admits only one borrow at a time; one
    /// that is not `send` may be borrowed exclusively only from its owning
    /// thread, and when it is also not `sync`, borrowed at all only there.
    pub fn try_borrow(&mut self, send: Option<u64>, is_sync: bool, current_thread: u64) -> (r:
        Result<Borrow, BorrowError>)
        requires
            old(self).wf(),
        ensures
            final(self).wf(),
            r == Self::shared_result(*old(self), send, is_sync, current_thread),
            *final(self) == Self::shared_post(*old(self), send, is_sync, current_thread),
    {
        match (send, is_sync) {
            (None, true) => self.try_add_shared(),
            (None, false) => {
                // one thread at a time: only the transition out of the free
                // state is accepted
                if self.word == 0 {
                    self.word = 1;
                    Ok(Borrow::Shared)
                } else {
                    Err(BorrowError::MultipleThreads)
                }
            },
            (Some(_), true) => self.try_add_shared(),
            (Some(owner), false) => {
                if owner == current_thread {
                    self.try_add_shared()
                } else {
                    Err(BorrowError::WrongThread)
                }
            },
        }
    }

    /// Counts one more shared borrow unless an exclusive borrow is live or
    /// the count would reach the exclusive mark.
    fn try_add_shared(&mut self) -> (r: Result<Borrow, BorrowError>)
        requires
            old(self).wf(),
        ensures
            final(self).wf(),
            old(self).is_exclusive() ==> r == Result::<Borrow, BorrowError>::Err(BorrowError::Shared)
                && *final(self) == *old(self),
            !old(self).is_exclusive() && old(self).word + 1 == EXCLUSIVE_BIT
                ==> r == Result::<Borrow, BorrowError>::Err(BorrowError::TooManyBorrows)
                && *final(self) == *old(self),
            !old(self).is_exclusive() && old(self).word + 1 < EXCLUSIVE_BIT
                ==> r == Result::<Borrow, BorrowError>::Ok(Borrow::Shared)
                && final(self).word == old(self).word + 1,
    {
        if self.word >= EXCLUSIVE_BIT {
            Err(BorrowError::Shared)
        } else if self.word + 1 == EXCLUSIVE_BIT {
            // the shared count has reached its representational limit;
            // refuse rather than let it collide with the exclusive mark
            Err(BorrowError::TooManyBorrows)
        } else {
            self.word = self.word + 1;
            Ok(Borrow::Shared)
        }
    }

    /// Tries to take an exclusive borrow under the policy `(send, is_sync)`,
    /// called from the thread identified by `current_thread`.
    ///
    /// Succeeds exactly when the policy admits the calling thread and no
    /// borrow at all is live.
    pub fn try_borrow_mut(&mut self, send: Option<u64>, is_sync: bool, current_thread: u64) -> (r:
        Result<Borrow, BorrowError>)
        requires
            old(self).wf(),
        ensures
            final(self).wf(),
            r == Self::exclusive_result(*old(self), send, current_thread),
            *final(self) == Self::exclusive_post(*old(self), send, current_thread),
    {
        let allowed = match send {
            None => true,
            Some(owner) => owner == current_thread,
        };
        if !allowed {
            Err(BorrowError::WrongThread)
        } else if self.word == 0 {
            self.word = EXCLUSIVE_BIT;
            Ok(Borrow::Unique)
        } else {
            Err(BorrowError::Unique)
        }
    }

    /// Gives a borrow back: a shared token decrements the count, the unique
    /// token clears the exclusive mark.
    pub fn release(&mut self, borrow: Borrow)
        requires
            old(self).wf(),
            borrow is Shared ==> !old(self).is_exclusive() && old(self).shared_count() >= 1,
            borrow is Unique ==> old(self).is_exclusive(),
        ensures
            final(self).wf(),
            borrow is Shared ==> final(self).word == old(self).word - 1,
            borrow is Unique ==> final(self).is_free(),
    {
        match borrow {
            Borrow::Shared => {
                self.word = self.word - 1;
            },
            Borrow::Unique => {
                self.word = 0;
            },
        }
    }
}

impl Default for BorrowState {
    /// A fresh cell state with no live borrow.
    fn default() -> (r: Self)
        ensures
            r.is_free(),
            r.wf(),
    {
        BorrowState { word: 0 }
    }
}

/// The state word after `n` shared releases.
pub open spec fn after_shared_releases(s: BorrowState, n: nat) -> BorrowState
    decreases n,
{
    if n == 0 {
        s
    } else {
        after_shared_releases(BorrowState { word: (s.word - 1) as u64 }, (n - 1) as nat)
    }
}

/// At any moment a well-formed cell holds either one exclusive borrow or
/// some number of shared borrows, never both.
pub proof fn lemma_shared_xor_exclusive(s: BorrowState)
    requires
        s.wf(),
    ensures
        !(s.is_exclusive() && s.shared_count() > 0),
{
}

/// Releasing every live borrow returns the state word to zero: releasing the
/// unique borrow clears it directly, and releasing each of the `n` live
/// shared borrows in turn counts the word down to zero.
pub proof fn lemma_release_all_shared(s: BorrowState)
    requires
        s.wf(),
        !s.is_exclusive(),
    ensures
        after_shared_releases(s, s.shared_count() as nat).is_free(),
    decreases s.word,
{
    if s.word > 0 {
        lemma_release_all_shared(BorrowState { word: (s.word - 1) as u64 });
    }
}

} // verus!
