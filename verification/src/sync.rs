//! Sharing a stream: a value made on first use, and two kinds of locks.
//!
//! A lock here is the record of who holds it. Taking it does not wait: where another holder
//! stands in the way, nothing changes, and the caller has to try again after a release.
use vstd::prelude::*;

verus! {

/// The number of a thread.
pub type ThreadId = u64;

/// A value that is made when it is first needed.
#[derive(Clone, Debug)]
pub struct SyncOnceCell<T> {
    value: Option<T>,
}

impl<T> View for SyncOnceCell<T> {
    type V = Option<T>;

    closed spec fn view(&self) -> Option<T> {
        self.value
    }
}

impl<T> SyncOnceCell<T> {
    /// A cell without a value.
    pub fn new() -> (cell: SyncOnceCell<T>)
        ensures
            cell@ is None,
    {
        SyncOnceCell { value: None }
    }

    /// The value, if it has been made.
    pub fn get_mut(&mut self) -> (value: Option<&mut T>)
        ensures
            match value {
                Some(value) => old(self)@ == Some(*value) && final(self)@ == Some(*final(value)),
                None => old(self)@ is None && final(self)@ is None,
            },
    {
        match &mut self.value {
            Some(value) => Some(value),
            None => None,
        }
    }

    /// The value; `init` makes it if there is none yet.
    pub fn get_or_init<F: FnOnce() -> T>(&mut self, init: F) -> (value: &mut T)
        requires
            call_requires(init, ()),
        ensures
            match old(self)@ {
                Some(before) => *value == before,
                None => call_ensures(init, (), *value),
            },
            final(self)@ == Some(*final(value)),
    {
        if self.value.is_none() {
            self.value = Some(init());
        }
        self.value.as_mut().unwrap()
    }
}

/// A value that one holder at a time may use. A holder that panics leaves the lock poisoned.
#[derive(Clone, Debug)]
pub struct Mutex<T> {
    holder: Option<ThreadId>,
    poisoned: bool,
    value: T,
}

/// The contents of a [`Mutex`].
#[verifier::ext_equal]
pub struct Locked<T> {
    /// Who holds the lock.
    pub holder: Option<ThreadId>,
    /// Whether a holder has panicked.
    pub poisoned: bool,
    pub value: T,
}

impl<T> Locked<T> {
    /// The lock as it is, on another value.
    pub open spec fn with(self, value: T) -> Locked<T> {
        Locked { value, ..self }
    }
}

impl<T> View for Mutex<T> {
    type V = Locked<T>;

    closed spec fn view(&self) -> Locked<T> {
        Locked { holder: self.holder, poisoned: self.poisoned, value: self.value }
    }
}

/// The right to use what a [`Mutex`] holds.
pub struct MutexGuard {
    thread: ThreadId,
}

impl MutexGuard {
    /// The thread that has the right.
    pub closed spec fn thread(&self) -> ThreadId {
        self.thread
    }
}

/// Says that a lock was taken of which an earlier holder panicked.
pub struct PoisonError {
    guard: MutexGuard,
}

impl PoisonError {
    /// The thread that took the lock.
    pub closed spec fn thread(&self) -> ThreadId {
        self.guard.thread()
    }

    /// The right to use the value all the same.
    pub fn into_inner(self) -> (guard: MutexGuard)
        ensures
            guard.thread() == self.thread(),
    {
        self.guard
    }
}

impl<T> Mutex<T> {
    /// A free lock.
    pub fn new(value: T) -> (mutex: Mutex<T>)
        ensures
            mutex@ == (Locked { holder: None, poisoned: false, value }),
    {
        Mutex { holder: None, poisoned: false, value }
    }

    /// Takes the lock for the thread `me`. There is no result where anyone holds it, `me` too.
    pub fn lock(&mut self, me: ThreadId) -> (taken: Option<Result<MutexGuard, PoisonError>>)
        ensures
            match taken {
                None => old(self)@.holder is Some && *final(self) == *old(self),
                Some(taken) => {
                    &&& old(self)@.holder is None
                    &&& final(self)@ == (Locked { holder: Some(me), ..old(self)@ })
                    &&& match taken {
                        Ok(guard) => !old(self)@.poisoned && guard.thread() == me,
                        Err(error) => old(self)@.poisoned && error.thread() == me,
                    }
                },
            },
    {
        if self.holder.is_some() {
            return None;
        }
        self.holder = Some(me);
        let guard = MutexGuard { thread: me };
        if self.poisoned {
            Some(Err(PoisonError { guard }))
        } else {
            Some(Ok(guard))
        }
    }

    /// Gives the lock back; `panicking` says that its holder does so in a panic.
    pub fn unlock(&mut self, guard: MutexGuard, panicking: bool)
        requires
            old(self)@.holder == Some(guard.thread()),
        ensures
            final(self)@ == (Locked {
                holder: None,
                poisoned: old(self)@.poisoned || panicking,
                value: old(self)@.value,
            }),
    {
        self.holder = None;
        if panicking {
            self.poisoned = true;
        }
    }

    /// The value, for the holder of the lock.
    pub fn get_mut(&mut self, guard: &MutexGuard) -> (value: &mut T)
        requires
            old(self)@.holder == Some(guard.thread()),
        ensures
            *value == old(self)@.value,
            final(self)@ == old(self)@.with(*final(value)),
    {
        &mut self.value
    }

    /// The value, for the holder of the lock, to look at.
    pub fn get(&self, guard: &MutexGuard) -> (value: &T)
        requires
            self@.holder == Some(guard.thread()),
        ensures
            *value == self@.value,
    {
        &self.value
    }

    /// The value, for whoever owns the lock itself.
    pub fn inner_mut(&mut self) -> (value: &mut T)
        ensures
            *value == old(self)@.value,
            final(self)@ == old(self)@.with(*final(value)),
    {
        &mut self.value
    }

    /// The value, for whoever owns the lock itself, to look at.
    pub fn inner(&self) -> (value: &T)
        ensures
            *value == self@.value,
    {
        &self.value
    }
}

/// A value that one thread at a time may use; the thread that holds the lock may take it again.
#[derive(Clone, Debug)]
pub struct ReentrantMutex<T> {
    holder: Option<(ThreadId, u32)>,
    value: T,
}

/// The contents of a [`ReentrantMutex`].
#[verifier::ext_equal]
pub struct Nested<T> {
    /// The thread that holds the lock, and how often it has taken it again.
    pub holder: Option<(ThreadId, nat)>,
    pub value: T,
}

impl<T> Nested<T> {
    /// Whether the thread `me` can take the lock.
    pub open spec fn open_to(self, me: ThreadId) -> bool {
        match self.holder {
            Some((thread, _)) => thread == me,
            None => true,
        }
    }

    /// Whether the thread `me` holds the lock.
    pub open spec fn held_by(self, me: ThreadId) -> bool {
        self.holder is Some && self.open_to(me)
    }

    /// Whether the thread `me` has not taken the lock more often than can be counted.
    pub open spec fn countable(self, me: ThreadId) -> bool {
        self.holder matches Some((thread, again)) ==> thread == me ==> again < u32::MAX
    }

    /// The lock as it is, on another value.
    pub open spec fn with(self, value: T) -> Nested<T> {
        Nested { value, ..self }
    }

    /// The lock, taken once more by the thread `me`.
    pub open spec fn acquired(self, me: ThreadId) -> Nested<T> {
        Nested {
            holder: match self.holder {
                Some((_, again)) => Some((me, again + 1)),
                None => Some((me, 0)),
            },
            ..self
        }
    }

    /// The lock, given back once.
    pub open spec fn released(self) -> Nested<T> {
        Nested {
            holder: match self.holder {
                Some((thread, again)) => if again == 0 {
                    None
                } else {
                    Some((thread, (again - 1) as nat))
                },
                None => None,
            },
            ..self
        }
    }
}

impl<T> View for ReentrantMutex<T> {
    type V = Nested<T>;

    closed spec fn view(&self) -> Nested<T> {
        Nested {
            holder: match self.holder {
                Some((thread, again)) => Some((thread, again as nat)),
                None => None,
            },
            value: self.value,
        }
    }
}

/// The right to use what a [`ReentrantMutex`] holds.
pub struct ReentrantMutexGuard {
    thread: ThreadId,
}

impl ReentrantMutexGuard {
    /// The thread that has the right.
    pub closed spec fn thread(&self) -> ThreadId {
        self.thread
    }
}

impl<T> ReentrantMutex<T> {
    /// A free lock.
    pub fn new(value: T) -> (mutex: ReentrantMutex<T>)
        ensures
            mutex@ == (Nested { holder: None, value }),
    {
        ReentrantMutex { holder: None, value }
    }

    /// Whether the thread `me` can be counted once more as the holder.
    pub fn is_countable(&self, me: ThreadId) -> (yes: bool)
        ensures
            yes == self@.countable(me),
    {
        match self.holder {
            Some((thread, again)) => thread != me || again < u32::MAX,
            None => true,
        }
    }

    /// Takes the lock for the thread `me`. There is no result where another thread holds it.
    pub fn try_lock(&mut self, me: ThreadId) -> (guard: Option<ReentrantMutexGuard>)
        requires
            old(self)@.countable(me),
        ensures
            match guard {
                None => !old(self)@.open_to(me) && *final(self) == *old(self),
                Some(guard) => {
                    &&& old(self)@.open_to(me)
                    &&& final(self)@ == old(self)@.acquired(me)
                    &&& guard.thread() == me
                },
            },
    {
        match self.holder {
            Some((thread, again)) => {
                if thread != me {
                    return None;
                }
                self.holder = Some((me, again + 1));
            },
            None => {
                self.holder = Some((me, 0));
            },
        }
        Some(ReentrantMutexGuard { thread: me })
    }

    /// Takes the lock for the thread `me`, which has to wait where there is no result.
    pub fn lock(&mut self, me: ThreadId) -> (guard: Option<ReentrantMutexGuard>)
        requires
            old(self)@.countable(me),
        ensures
            match guard {
                None => !old(self)@.open_to(me) && *final(self) == *old(self),
                Some(guard) => {
                    &&& old(self)@.open_to(me)
                    &&& final(self)@ == old(self)@.acquired(me)
                    &&& guard.thread() == me
                },
            },
    {
        self.try_lock(me)
    }

    /// Gives the lock back once.
    pub fn unlock(&mut self, guard: ReentrantMutexGuard)
        requires
            old(self)@.held_by(guard.thread()),
        ensures
            final(self)@ == old(self)@.released(),
    {
        match self.holder {
            Some((thread, again)) => {
                if again == 0 {
                    self.holder = None;
                } else {
                    self.holder = Some((thread, again - 1));
                }
            },
            None => {},
        }
    }

    /// The value, for the holder of the lock.
    pub fn get_mut(&mut self, guard: &ReentrantMutexGuard) -> (value: &mut T)
        requires
            old(self)@.held_by(guard.thread()),
        ensures
            *value == old(self)@.value,
            final(self)@ == old(self)@.with(*final(value)),
    {
        &mut self.value
    }

    /// The value, for the holder of the lock, to look at.
    pub fn get(&self, guard: &ReentrantMutexGuard) -> (value: &T)
        requires
            self@.held_by(guard.thread()),
        ensures
            *value == self@.value,
    {
        &self.value
    }

    /// The value, for whoever owns the lock itself.
    pub fn inner_mut(&mut self) -> (value: &mut T)
        ensures
            *value == old(self)@.value,
            final(self)@ == old(self)@.with(*final(value)),
    {
        &mut self.value
    }

    /// The value, for whoever owns the lock itself, to look at.
    pub fn inner(&self) -> (value: &T)
        ensures
            *value == self@.value,
    {
        &self.value
    }
}

} // verus!
