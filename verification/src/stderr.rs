//! Standard error, shared by all who write to it.
use vstd::prelude::*;

use crate::bytes::{counted, slices};
use crate::error::{forgiven, Error, Fault};
use crate::format::Arguments;
use crate::raw::{stderr_raw, StderrRaw};
use crate::sink::{format_result, Output, WriteAsk, WriteRequest};
use crate::sync::{Nested, ReentrantMutex, ReentrantMutexGuard, SyncOnceCell, ThreadId};

verus! {

/// The standard error stream of a process.
///
/// It holds the stream with its lock; nothing is buffered. A handle is what [`stderr()`] lends: a
/// reference to the one stream of the process. A thread that wants several writes to follow one
/// another takes the lock, and may take it again; every other write takes it for its own duration.
#[derive(Clone)]
pub struct Stderr {
    inner: ReentrantMutex<StderrRaw>,
}

impl View for Stderr {
    type V = Nested<Output>;

    closed spec fn view(&self) -> Nested<Output> {
        Nested { holder: self.inner@.holder, value: self.inner@.value@ }
    }
}

/// The lock on [`Stderr`]: it gives the thread that took it the stream for itself.
#[must_use]
pub struct StderrLock {
    inner: ReentrantMutexGuard,
}

/// Standard error as it is when a process starts: not locked, and nothing written.
pub open spec fn fresh_stderr() -> Nested<Output> {
    Nested {
        holder: None,
        value: Output { answers: Seq::empty(), asked: Seq::empty(), vectored: true },
    }
}

/// The stream that a use of `instance` finds: the one that is there, or else a fresh one.
pub open spec fn stderr_state(instance: Option<Stderr>) -> Nested<Output> {
    match instance {
        Some(stderr) => stderr@,
        None => fresh_stderr(),
    }
}

/// Writes all of the pieces, one after the other. A stream that is not open takes every piece.
pub open spec fn write_pieces(output: Output, pieces: Seq<Seq<u8>>) -> (Output, Result<(), Error>)
    decreases pieces.len(),
{
    if pieces.len() == 0 {
        (output, Ok(()))
    } else {
        let first = output.write_all(pieces[0]);
        let result = forgiven(first.result, ());
        if result is Err {
            (first.output, result)
        } else {
            write_pieces(first.output, pieces.drop_first())
        }
    }
}

/// The standard error of the process, whose one instance is kept in `instance`. The first call
/// makes it.
pub fn stderr(instance: &mut SyncOnceCell<Stderr>) -> (handle: &mut Stderr)
    ensures
        handle@ == stderr_state(old(instance)@),
        old(instance)@ is Some ==> old(instance)@ == Some(*handle),
        final(instance)@ == Some(*final(handle)),
{
    let init = || -> (made: Stderr)
        ensures
            made@ == fresh_stderr(),
        { Stderr { inner: ReentrantMutex::new(stderr_raw()) } };
    instance.get_or_init(init)
}

/// Takes the lock on the standard error of the process for the thread `me`. There is no result
/// where it has to wait.
pub fn stderr_locked(
    instance: &mut SyncOnceCell<Stderr>,
    me: ThreadId,
) -> (lock: Option<StderrLock>)
    requires
        stderr_state(old(instance)@).countable(me),
    ensures
        final(instance)@ is Some,
        ({
            let before = stderr_state(old(instance)@);
            let now = stderr_state(final(instance)@);
            match lock {
                None => !before.open_to(me) && now == before,
                Some(lock) => {
                    &&& before.open_to(me)
                    &&& lock.thread() == me
                    &&& now == before.acquired(me)
                },
            }
        }),
{
    stderr(instance).into_locked(me)
}

impl Stderr {
    /// Adds the next answer of the host.
    pub fn answer(&mut self, answer: Result<usize, Error>)
        ensures
            ({
                let output = old(self)@.value;
                let answered = Output { answers: output.answers.push(answer), ..output };
                final(self)@ == old(self)@.with(answered)
            }),
    {
        self.inner.inner_mut().0.answer(answer);
    }

    /// The first request to the host that has no answer.
    pub fn pending(&self) -> (request: Option<&WriteRequest>)
        ensures
            ({
                let output = self@.value;
                match request {
                    Some(request) => output.asked.len() > output.answers.len() && request@
                        == output.asked[output.answers.len() as int],
                    None => output.asked.len() <= output.answers.len(),
                }
            }),
    {
        self.inner.inner().0.pending()
    }

    /// Forgets the requests to the host and its answers.
    pub fn settle(&mut self)
        ensures
            ({
                let output = old(self)@.value;
                let settled = Output { answers: Seq::empty(), asked: Seq::empty(), ..output };
                final(self)@ == old(self)@.with(settled)
            }),
    {
        self.inner.inner_mut().0.settle();
    }
}

impl Stderr {
    /// Takes the lock for the thread `me`. There is no result where it has to wait: another thread
    /// holds the lock.
    pub fn lock(&mut self, me: ThreadId) -> (lock: Option<StderrLock>)
        requires
            old(self)@.countable(me),
        ensures
            match lock {
                None => !old(self)@.open_to(me) && final(self)@ == old(self)@,
                Some(lock) => {
                    &&& old(self)@.open_to(me)
                    &&& lock.thread() == me
                    &&& final(self)@ == old(self)@.acquired(me)
                },
            },
    {
        self.lock_any(me)
    }

    /// Takes the lock.
    pub fn lock_any(&mut self, me: ThreadId) -> (lock: Option<StderrLock>)
        requires
            old(self)@.countable(me),
        ensures
            match lock {
                None => !old(self)@.open_to(me) && final(self)@ == old(self)@,
                Some(lock) => {
                    &&& old(self)@.open_to(me)
                    &&& lock.thread() == me
                    &&& final(self)@ == old(self)@.acquired(me)
                },
            },
    {
        match self.inner.lock(me) {
            None => None,
            Some(guard) => Some(StderrLock { inner: guard }),
        }
    }

    /// Takes the lock for the thread `me`, as [`Stderr::lock`] does. It is given back by
    /// [`StderrLock::unlock`].
    pub fn into_locked(&mut self, me: ThreadId) -> (lock: Option<StderrLock>)
        requires
            old(self)@.countable(me),
        ensures
            match lock {
                None => !old(self)@.open_to(me) && final(self)@ == old(self)@,
                Some(lock) => {
                    &&& old(self)@.open_to(me)
                    &&& lock.thread() == me
                    &&& final(self)@ == old(self)@.acquired(me)
                },
            },
    {
        self.lock_any(me)
    }

    /// Whether the thread `me` can be counted once more as the holder of the lock.
    pub fn is_countable(&self, me: ThreadId) -> (yes: bool)
        ensures
            yes == self@.countable(me),
    {
        self.inner.is_countable(me)
    }

    /// How the handle shows itself in messages to programmers.
    pub fn fmt(&self) -> (text: String)
        ensures
            text@ == "Stderr { .. }"@,
    {
        "Stderr { .. }".to_owned()
    }

    /// Writes `buf`, or some of it from the start. There is no result where `me` has to wait for
    /// the lock.
    pub fn write(&mut self, me: ThreadId, buf: &[u8]) -> (done: Option<Result<usize, Error>>)
        requires
            old(self)@.countable(me),
        ensures
            match done {
                None => !old(self)@.open_to(me) && final(self)@ == old(self)@,
                Some(result) => {
                    let output = old(self)@.value;
                    &&& old(self)@.open_to(me)
                    &&& final(self)@ == old(self)@.with(output.ask(WriteAsk::Write(buf@)))
                    &&& counted(result) == forgiven(output.reply_within(buf@.len()), buf@.len())
                },
            },
    {
        match self.lock(me) {
            None => None,
            Some(lock) => {
                let result = lock.write(self, buf);
                lock.unlock(self);
                Some(result)
            },
        }
    }

    /// Writes what several buffers hold, or some of it from the start. There is no result where
    /// `me` has to wait for the lock.
    pub fn write_vectored(
        &mut self,
        me: ThreadId,
        bufs: &[&[u8]],
    ) -> (done: Option<Result<usize, Error>>)
        requires
            old(self)@.countable(me),
            slices(bufs@).flatten().len() <= usize::MAX,
        ensures
            match done {
                None => !old(self)@.open_to(me) && final(self)@ == old(self)@,
                Some(result) => {
                    let output = old(self)@.value;
                    let len = slices(bufs@).flatten().len();
                    &&& old(self)@.open_to(me)
                    &&& final(self)@ == old(self)@.with(
                        output.ask(WriteAsk::WriteVectored(slices(bufs@))),
                    )
                    &&& counted(result) == forgiven(output.reply_within(len), len)
                },
            },
    {
        match self.lock(me) {
            None => None,
            Some(lock) => {
                let result = lock.write_vectored(self, bufs);
                lock.unlock(self);
                Some(result)
            },
        }
    }

    /// Flushes the stream. There is no result where `me` has to wait for the lock.
    pub fn flush(&mut self, me: ThreadId) -> (done: Option<Result<(), Error>>)
        requires
            old(self)@.countable(me),
        ensures
            match done {
                None => !old(self)@.open_to(me) && final(self)@ == old(self)@,
                Some(result) => {
                    let output = old(self)@.value;
                    &&& old(self)@.open_to(me)
                    &&& final(self)@ == old(self)@.with(output.ask(WriteAsk::Flush))
                    &&& result == forgiven(output.reply_flush(), ())
                },
            },
    {
        match self.lock(me) {
            None => None,
            Some(lock) => {
                let result = lock.flush(self);
                lock.unlock(self);
                Some(result)
            },
        }
    }

    /// Writes all of `buf`. There is no result where `me` has to wait for the lock.
    pub fn write_all(&mut self, me: ThreadId, buf: &[u8]) -> (done: Option<Result<(), Error>>)
        requires
            old(self)@.countable(me),
        ensures
            match done {
                None => !old(self)@.open_to(me) && final(self)@ == old(self)@,
                Some(result) => {
                    let drained = old(self)@.value.write_all(buf@);
                    &&& old(self)@.open_to(me)
                    &&& final(self)@ == old(self)@.with(drained.output)
                    &&& result == forgiven(drained.result, ())
                },
            },
    {
        match self.lock(me) {
            None => None,
            Some(lock) => {
                let result = lock.write_all(self, buf);
                lock.unlock(self);
                Some(result)
            },
        }
    }

    /// Writes all that several buffers hold. There is no result where `me` has to wait for the
    /// lock.
    pub fn write_all_vectored(
        &mut self,
        me: ThreadId,
        bufs: &[&[u8]],
    ) -> (done: Option<Result<(), Error>>)
        requires
            old(self)@.countable(me),
        ensures
            match done {
                None => !old(self)@.open_to(me) && final(self)@ == old(self)@,
                Some(result) => {
                    let drained = old(self)@.value.write_all_vectored(slices(bufs@));
                    &&& old(self)@.open_to(me)
                    &&& final(self)@ == old(self)@.with(drained.output)
                    &&& result == forgiven(drained.result, ())
                },
            },
    {
        match self.lock(me) {
            None => None,
            Some(lock) => {
                let result = lock.write_all_vectored(self, bufs);
                lock.unlock(self);
                Some(result)
            },
        }
    }

    /// Writes formatted output. There is no result where `me` has to wait for the lock.
    pub fn write_fmt(&mut self, me: ThreadId, args: &Arguments) -> (done: Option<Result<(), Error>>)
        requires
            old(self)@.countable(me),
        ensures
            match done {
                None => !old(self)@.open_to(me) && final(self)@ == old(self)@,
                Some(result) => {
                    let sent = write_pieces(old(self)@.value, args@.pieces);
                    &&& old(self)@.open_to(me)
                    &&& final(self)@ == old(self)@.with(sent.0)
                    &&& result == format_result(sent.1, args@.failed)
                },
            },
    {
        match self.lock(me) {
            None => None,
            Some(lock) => {
                let result = lock.write_fmt(self, args);
                lock.unlock(self);
                Some(result)
            },
        }
    }

    /// Whether the stream can take several buffers at once. There is no result where `me` has to
    /// wait for the lock.
    pub fn is_write_vectored(&mut self, me: ThreadId) -> (done: Option<bool>)
        requires
            old(self)@.countable(me),
        ensures
            final(self)@ == old(self)@,
            match done {
                None => !old(self)@.open_to(me),
                Some(yes) => old(self)@.open_to(me) && yes == old(self)@.value.vectored,
            },
    {
        match self.lock(me) {
            None => None,
            Some(lock) => {
                let yes = lock.is_write_vectored(self);
                lock.unlock(self);
                Some(yes)
            },
        }
    }
}

impl StderrLock {
    /// The thread that holds the lock.
    pub closed spec fn thread(&self) -> ThreadId {
        self.inner.thread()
    }

    /// Gives the lock back once.
    pub fn unlock(self, stderr: &mut Stderr)
        requires
            old(stderr)@.held_by(self.thread()),
        ensures
            final(stderr)@ == old(stderr)@.released(),
    {
        stderr.inner.unlock(self.inner);
    }

    /// How the lock shows itself in messages to programmers.
    pub fn fmt(&self) -> (text: String)
        ensures
            text@ == "StderrLock { .. }"@,
    {
        "StderrLock { .. }".to_owned()
    }

    /// Writes `buf`, or some of it from the start.
    pub fn write(&self, stderr: &mut Stderr, buf: &[u8]) -> (result: Result<usize, Error>)
        requires
            old(stderr)@.held_by(self.thread()),
        ensures
            ({
                let output = old(stderr)@.value;
                &&& final(stderr)@ == old(stderr)@.with(output.ask(WriteAsk::Write(buf@)))
                &&& counted(result) == forgiven(output.reply_within(buf@.len()), buf@.len())
            }),
    {
        stderr.inner.get_mut(&self.inner).write(buf)
    }

    /// Writes what several buffers hold, or some of it from the start.
    pub fn write_vectored(
        &self,
        stderr: &mut Stderr,
        bufs: &[&[u8]],
    ) -> (result: Result<usize, Error>)
        requires
            old(stderr)@.held_by(self.thread()),
            slices(bufs@).flatten().len() <= usize::MAX,
        ensures
            ({
                let output = old(stderr)@.value;
                let len = slices(bufs@).flatten().len();
                &&& final(stderr)@ == old(stderr)@.with(
                    output.ask(WriteAsk::WriteVectored(slices(bufs@))),
                )
                &&& counted(result) == forgiven(output.reply_within(len), len)
            }),
    {
        stderr.inner.get_mut(&self.inner).write_vectored(bufs)
    }

    /// Flushes the stream.
    pub fn flush(&self, stderr: &mut Stderr) -> (result: Result<(), Error>)
        requires
            old(stderr)@.held_by(self.thread()),
        ensures
            ({
                let output = old(stderr)@.value;
                &&& final(stderr)@ == old(stderr)@.with(output.ask(WriteAsk::Flush))
                &&& result == forgiven(output.reply_flush(), ())
            }),
    {
        stderr.inner.get_mut(&self.inner).flush()
    }

    /// Writes all of `buf`.
    pub fn write_all(&self, stderr: &mut Stderr, buf: &[u8]) -> (result: Result<(), Error>)
        requires
            old(stderr)@.held_by(self.thread()),
        ensures
            ({
                let drained = old(stderr)@.value.write_all(buf@);
                &&& final(stderr)@ == old(stderr)@.with(drained.output)
                &&& result == forgiven(drained.result, ())
            }),
    {
        stderr.inner.get_mut(&self.inner).write_all(buf)
    }

    /// Writes all that several buffers hold.
    pub fn write_all_vectored(
        &self,
        stderr: &mut Stderr,
        bufs: &[&[u8]],
    ) -> (result: Result<(), Error>)
        requires
            old(stderr)@.held_by(self.thread()),
        ensures
            ({
                let drained = old(stderr)@.value.write_all_vectored(slices(bufs@));
                &&& final(stderr)@ == old(stderr)@.with(drained.output)
                &&& result == forgiven(drained.result, ())
            }),
    {
        stderr.inner.get_mut(&self.inner).write_all_vectored(bufs)
    }

    /// Whether the stream can take several buffers at once.
    pub fn is_write_vectored(&self, stderr: &Stderr) -> (yes: bool)
        requires
            stderr@.held_by(self.thread()),
        ensures
            yes == stderr@.value.vectored,
    {
        stderr.inner.get(&self.inner).is_write_vectored()
    }

    /// Writes formatted output.
    pub fn write_fmt(&self, stderr: &mut Stderr, args: &Arguments) -> (result: Result<(), Error>)
        requires
            old(stderr)@.held_by(self.thread()),
        ensures
            ({
                let sent = write_pieces(old(stderr)@.value, args@.pieces);
                &&& final(stderr)@ == old(stderr)@.with(sent.0)
                &&& result == format_result(sent.1, args@.failed)
            }),
    {
        let ghost whole = write_pieces(old(stderr)@.value, args@.pieces);
        let mut at: usize = 0;
        assert(args@.pieces.skip(0) =~= args@.pieces);
        while at < args.pieces.len()
            invariant
                at <= args.pieces@.len(),
                stderr@ == old(stderr)@.with(stderr@.value),
                stderr@.held_by(self.thread()),
                whole == write_pieces(old(stderr)@.value, args@.pieces),
                whole == write_pieces(stderr@.value, args@.pieces.skip(at as int)),
            decreases args.pieces@.len() - at,
        {
            let ghost rest = args@.pieces.skip(at as int);
            assert(rest.drop_first() =~= args@.pieces.skip(at + 1));
            match self.write_all(stderr, args.pieces[at].as_str().as_bytes()) {
                Ok(()) => {},
                Err(error) => {
                    return Err(error);
                },
            }
            at = at + 1;
        }
        if args.failed {
            Err(Error::Fault(Fault::Formatter))
        } else {
            Ok(())
        }
    }
}

} // verus!
