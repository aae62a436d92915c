//! Standard output, shared by all who write to it.
use vstd::prelude::*;

use crate::bytes::{counted, slices};
use crate::error::Error;
use crate::format::Arguments;
use crate::line_writer::{LineWriter, Writer, LINE_BUFFER};
use crate::raw::stdout_raw;
use crate::sink::{format_result, Output, WriteRequest};
use crate::sync::{Nested, ReentrantMutex, ReentrantMutexGuard, SyncOnceCell, ThreadId};

verus! {

/// The standard output stream of a process.
///
/// It holds the stream with its buffer and its lock. A handle is what [`stdout()`] lends: a
/// reference to the one stream of the process, so that all handles share the buffer. A thread that
/// wants several writes to follow one another takes the lock, and may take it again; every other
/// write takes it for its own duration.
#[derive(Clone)]
pub struct Stdout {
    inner: ReentrantMutex<LineWriter>,
}

impl View for Stdout {
    type V = Nested<Writer>;

    closed spec fn view(&self) -> Nested<Writer> {
        Nested { holder: self.inner@.holder, value: self.inner@.value@ }
    }
}

/// The lock on [`Stdout`]: it gives the thread that took it the stream for itself.
#[must_use]
pub struct StdoutLock {
    inner: ReentrantMutexGuard,
}

/// Standard output as it is when a process starts: not locked, and nothing written.
pub open spec fn fresh_stdout() -> Nested<Writer> {
    Nested {
        holder: None,
        value: Writer {
            output: Output { answers: Seq::empty(), asked: Seq::empty(), vectored: true },
            buffered: Seq::empty(),
            capacity: LINE_BUFFER as nat,
        },
    }
}

/// The stream that a use of `instance` finds: the one that is there, or else a fresh one.
pub open spec fn stdout_state(instance: Option<Stdout>) -> Nested<Writer> {
    match instance {
        Some(stdout) => stdout@,
        None => fresh_stdout(),
    }
}

/// Whether the stream in `instance` is in order, if there is one.
pub open spec fn stdout_wf(instance: Option<Stdout>) -> bool {
    instance matches Some(stdout) ==> stdout.wf()
}

/// A writer that has passed on its buffer, as far as the host took it, and buffers nothing from
/// then on.
pub open spec fn unbuffered(writer: Writer) -> Writer {
    Writer { output: writer.flush_buf().writer.output, buffered: Seq::empty(), capacity: 0 }
}

/// The standard output of the process, whose one instance is kept in `instance`. The first call
/// makes it.
pub fn stdout(instance: &mut SyncOnceCell<Stdout>) -> (handle: &mut Stdout)
    requires
        stdout_wf(old(instance)@),
    ensures
        handle.wf(),
        handle@ == stdout_state(old(instance)@),
        old(instance)@ is Some ==> old(instance)@ == Some(*handle),
        final(instance)@ == Some(*final(handle)),
{
    let init = || -> (made: Stdout)
        ensures
            made.wf(),
            made@ == fresh_stdout(),
        { Stdout { inner: ReentrantMutex::new(LineWriter::new(stdout_raw())) } };
    instance.get_or_init(init)
}

/// Takes the lock on the standard output of the process for the thread `me`. There is no result
/// where it has to wait.
pub fn stdout_locked(
    instance: &mut SyncOnceCell<Stdout>,
    me: ThreadId,
) -> (lock: Option<StdoutLock>)
    requires
        stdout_wf(old(instance)@),
        stdout_state(old(instance)@).countable(me),
    ensures
        final(instance)@ is Some,
        stdout_wf(final(instance)@),
        ({
            let before = stdout_state(old(instance)@);
            let now = stdout_state(final(instance)@);
            match lock {
                None => !before.open_to(me) && now == before,
                Some(lock) => {
                    &&& before.open_to(me)
                    &&& lock.thread() == me
                    &&& now == before.acquired(me)
                },
            }
        }),
{
    stdout(instance).into_locked(me)
}

/// Prepares standard output for the end of the process, if it was ever used: what is in its
/// buffer is passed on, and what is written from then on is not buffered. Where another thread
/// holds the lock, nothing is done.
pub fn cleanup(instance: &mut SyncOnceCell<Stdout>, me: ThreadId)
    requires
        stdout_wf(old(instance)@),
        stdout_state(old(instance)@).countable(me),
    ensures
        stdout_wf(final(instance)@),
        match old(instance)@ {
            None => final(instance)@ is None,
            Some(before) => {
                &&& final(instance)@ matches Some(now)
                &&& now@ == if before@.open_to(me) {
                    before@.with(unbuffered(before@.value))
                } else {
                    before@
                }
            },
        },
{
    if let Some(stdout) = instance.get_mut() {
        if let Some(guard) = stdout.inner.try_lock(me) {
            let writer = stdout.inner.get_mut(&guard);
            let mut before = LineWriter::with_capacity(0, stdout_raw());
            core::mem::swap(writer, &mut before);
            *writer = LineWriter::with_capacity(0, before.into_raw());
            stdout.inner.unlock(guard);
        }
    }
}

impl Stdout {
    /// The buffer of the stream is in order.
    pub closed spec fn wf(&self) -> bool {
        self.inner@.value.wf()
    }

    /// The buffer of a stream that is in order holds no more than fits in it, and ends with the end
    /// of a line if it holds one, so that the laws of output apply to it.
    pub proof fn lemma_fits(&self)
        requires
            self.wf(),
        ensures
            self@.value.fits(),
            self@.value.ends_lines(),
            self@.value.buffered.len() <= self@.value.capacity,
            self@.value.buffered.contains(10u8) ==> self@.value.buffered.last() == 10,
    {
    }

    /// Adds the next answer of the host.
    pub fn answer(&mut self, answer: Result<usize, Error>)
        requires
            old(self).wf(),
        ensures
            final(self).wf(),
            ({
                let output = old(self)@.value.output;
                let answered = Output { answers: output.answers.push(answer), ..output };
                final(self)@ == old(self)@.with(Writer { output: answered, ..old(self)@.value })
            }),
    {
        self.inner.inner_mut().get_mut().0.answer(answer);
    }

    /// The first request to the host that has no answer.
    pub fn pending(&self) -> (request: Option<&WriteRequest>)
        ensures
            ({
                let output = self@.value.output;
                match request {
                    Some(request) => output.asked.len() > output.answers.len() && request@
                        == output.asked[output.answers.len() as int],
                    None => output.asked.len() <= output.answers.len(),
                }
            }),
    {
        self.inner.inner().get_ref().0.pending()
    }

    /// Forgets the requests to the host and its answers.
    pub fn settle(&mut self)
        requires
            old(self).wf(),
        ensures
            final(self).wf(),
            ({
                let output = old(self)@.value.output;
                let settled = Output { answers: Seq::empty(), asked: Seq::empty(), ..output };
                final(self)@ == old(self)@.with(Writer { output: settled, ..old(self)@.value })
            }),
    {
        self.inner.inner_mut().get_mut().0.settle();
    }
}

impl Stdout {
    /// Takes the lock for the thread `me`. There is no result where it has to wait: another thread
    /// holds the lock.
    pub fn lock(&mut self, me: ThreadId) -> (lock: Option<StdoutLock>)
        requires
            old(self).wf(),
            old(self)@.countable(me),
        ensures
            final(self).wf(),
            match lock {
                None => !old(self)@.open_to(me) && final(self)@ == old(self)@,
                Some(lock) => {
                    &&& old(self)@.open_to(me)
                    &&& lock.thread() == me
                    &&& final(self)@ == old(self)@.acquired(me)
                },
            },
    {
        self.lock_any(me)
    }

    /// Takes the lock.
    pub fn lock_any(&mut self, me: ThreadId) -> (lock: Option<StdoutLock>)
        requires
            old(self).wf(),
            old(self)@.countable(me),
        ensures
            final(self).wf(),
            match lock {
                None => !old(self)@.open_to(me) && final(self)@ == old(self)@,
                Some(lock) => {
                    &&& old(self)@.open_to(me)
                    &&& lock.thread() == me
                    &&& final(self)@ == old(self)@.acquired(me)
                },
            },
    {
        match self.inner.lock(me) {
            None => None,
            Some(guard) => Some(StdoutLock { inner: guard }),
        }
    }

    /// Takes the lock for the thread `me`, as [`Stdout::lock`] does. It is given back by
    /// [`StdoutLock::unlock`].
    pub fn into_locked(&mut self, me: ThreadId) -> (lock: Option<StdoutLock>)
        requires
            old(self).wf(),
            old(self)@.countable(me),
        ensures
            final(self).wf(),
            match lock {
                None => !old(self)@.open_to(me) && final(self)@ == old(self)@,
                Some(lock) => {
                    &&& old(self)@.open_to(me)
                    &&& lock.thread() == me
                    &&& final(self)@ == old(self)@.acquired(me)
                },
            },
    {
        self.lock_any(me)
    }

    /// Whether the thread `me` can be counted once more as the holder of the lock.
    pub fn is_countable(&self, me: ThreadId) -> (yes: bool)
        ensures
            yes == self@.countable(me),
    {
        self.inner.is_countable(me)
    }

    /// How the handle shows itself in messages to programmers.
    pub fn fmt(&self) -> (text: String)
        ensures
            text@ == "Stdout { .. }"@,
    {
        "Stdout { .. }".to_owned()
    }

    /// Writes `buf`: the lines in it are passed on at one request, and the rest is buffered. There
    /// is no result where `me` has to wait for the lock.
    pub fn write(&mut self, me: ThreadId, buf: &[u8]) -> (done: Option<Result<usize, Error>>)
        requires
            old(self).wf(),
            old(self)@.countable(me),
        ensures
            final(self).wf(),
            match done {
                None => !old(self)@.open_to(me) && final(self)@ == old(self)@,
                Some(result) => {
                    let done = old(self)@.value.write(buf@);
                    &&& old(self)@.open_to(me)
                    &&& final(self)@ == old(self)@.with(done.writer)
                    &&& counted(result) == done.result
                },
            },
    {
        match self.lock(me) {
            None => None,
            Some(lock) => {
                let result = lock.write(self, buf);
                lock.unlock(self);
                Some(result)
            },
        }
    }

    /// Writes what several buffers hold. There is no result where `me` has to wait for the lock.
    pub fn write_vectored(
        &mut self,
        me: ThreadId,
        bufs: &[&[u8]],
    ) -> (done: Option<Result<usize, Error>>)
        requires
            old(self).wf(),
            old(self)@.countable(me),
            slices(bufs@).flatten().len() <= usize::MAX,
        ensures
            final(self).wf(),
            match done {
                None => !old(self)@.open_to(me) && final(self)@ == old(self)@,
                Some(result) => {
                    let done = old(self)@.value.write_vectored(slices(bufs@));
                    &&& old(self)@.open_to(me)
                    &&& final(self)@ == old(self)@.with(done.writer)
                    &&& counted(result) == done.result
                },
            },
    {
        match self.lock(me) {
            None => None,
            Some(lock) => {
                let result = lock.write_vectored(self, bufs);
                lock.unlock(self);
                Some(result)
            },
        }
    }

    /// Passes on what is in the buffer, and flushes the stream. There is no result where `me` has
    /// to wait for the lock.
    pub fn flush(&mut self, me: ThreadId) -> (done: Option<Result<(), Error>>)
        requires
            old(self).wf(),
            old(self)@.countable(me),
        ensures
            final(self).wf(),
            match done {
                None => !old(self)@.open_to(me) && final(self)@ == old(self)@,
                Some(result) => {
                    let done = old(self)@.value.flush();
                    &&& old(self)@.open_to(me)
                    &&& final(self)@ == old(self)@.with(done.writer)
                    &&& result == done.result
                },
            },
    {
        match self.lock(me) {
            None => None,
            Some(lock) => {
                let result = lock.flush(self);
                lock.unlock(self);
                Some(result)
            },
        }
    }

    /// Writes all of `buf`: the lines in it are passed on, and the rest is buffered. There is no
    /// result where `me` has to wait for the lock.
    pub fn write_all(&mut self, me: ThreadId, buf: &[u8]) -> (done: Option<Result<(), Error>>)
        requires
            old(self).wf(),
            old(self)@.countable(me),
        ensures
            final(self).wf(),
            match done {
                None => !old(self)@.open_to(me) && final(self)@ == old(self)@,
                Some(result) => {
                    let done = old(self)@.value.write_all(buf@);
                    &&& old(self)@.open_to(me)
                    &&& final(self)@ == old(self)@.with(done.writer)
                    &&& result == done.result
                },
            },
    {
        match self.lock(me) {
            None => None,
            Some(lock) => {
                let result = lock.write_all(self, buf);
                lock.unlock(self);
                Some(result)
            },
        }
    }

    /// Writes all that several buffers hold. There is no result where `me` has to wait for the
    /// lock.
    pub fn write_all_vectored(
        &mut self,
        me: ThreadId,
        bufs: &[&[u8]],
    ) -> (done: Option<Result<(), Error>>)
        requires
            old(self).wf(),
            old(self)@.countable(me),
            slices(bufs@).flatten().len() <= usize::MAX,
        ensures
            final(self).wf(),
            match done {
                None => !old(self)@.open_to(me) && final(self)@ == old(self)@,
                Some(result) => {
                    let done = old(self)@.value.write_all_vectored(slices(bufs@));
                    &&& old(self)@.open_to(me)
                    &&& final(self)@ == old(self)@.with(done.writer)
                    &&& result == done.result
                },
            },
    {
        match self.lock(me) {
            None => None,
            Some(lock) => {
                let result = lock.write_all_vectored(self, bufs);
                lock.unlock(self);
                Some(result)
            },
        }
    }

    /// Writes formatted output. There is no result where `me` has to wait for the lock.
    pub fn write_fmt(&mut self, me: ThreadId, args: &Arguments) -> (done: Option<Result<(), Error>>)
        requires
            old(self).wf(),
            old(self)@.countable(me),
        ensures
            final(self).wf(),
            match done {
                None => !old(self)@.open_to(me) && final(self)@ == old(self)@,
                Some(result) => {
                    let done = old(self)@.value.write_pieces(args@.pieces);
                    &&& old(self)@.open_to(me)
                    &&& final(self)@ == old(self)@.with(done.writer)
                    &&& result == format_result(done.result, args@.failed)
                },
            },
    {
        match self.lock(me) {
            None => None,
            Some(lock) => {
                let result = lock.write_fmt(self, args);
                lock.unlock(self);
                Some(result)
            },
        }
    }

    /// Whether the stream can take several buffers at once. There is no result where `me` has to
    /// wait for the lock.
    pub fn is_write_vectored(&mut self, me: ThreadId) -> (done: Option<bool>)
        requires
            old(self).wf(),
            old(self)@.countable(me),
        ensures
            final(self).wf(),
            final(self)@ == old(self)@,
            match done {
                None => !old(self)@.open_to(me),
                Some(yes) => old(self)@.open_to(me) && yes == old(self)@.value.output.vectored,
            },
    {
        match self.lock(me) {
            None => None,
            Some(lock) => {
                let yes = lock.is_write_vectored(self);
                lock.unlock(self);
                Some(yes)
            },
        }
    }
}

impl StdoutLock {
    /// The thread that holds the lock.
    pub closed spec fn thread(&self) -> ThreadId {
        self.inner.thread()
    }

    /// Gives the lock back once.
    pub fn unlock(self, stdout: &mut Stdout)
        requires
            old(stdout).wf(),
            old(stdout)@.held_by(self.thread()),
        ensures
            final(stdout).wf(),
            final(stdout)@ == old(stdout)@.released(),
    {
        stdout.inner.unlock(self.inner);
    }

    /// How the lock shows itself in messages to programmers.
    pub fn fmt(&self) -> (text: String)
        ensures
            text@ == "StdoutLock { .. }"@,
    {
        "StdoutLock { .. }".to_owned()
    }

    /// Writes `buf`: the lines in it are passed on at one request, and the rest is buffered.
    pub fn write(&self, stdout: &mut Stdout, buf: &[u8]) -> (result: Result<usize, Error>)
        requires
            old(stdout).wf(),
            old(stdout)@.held_by(self.thread()),
        ensures
            final(stdout).wf(),
            ({
                let done = old(stdout)@.value.write(buf@);
                &&& final(stdout)@ == old(stdout)@.with(done.writer)
                &&& counted(result) == done.result
            }),
    {
        stdout.inner.get_mut(&self.inner).write(buf)
    }

    /// Writes what several buffers hold.
    pub fn write_vectored(
        &self,
        stdout: &mut Stdout,
        bufs: &[&[u8]],
    ) -> (result: Result<usize, Error>)
        requires
            old(stdout).wf(),
            old(stdout)@.held_by(self.thread()),
            slices(bufs@).flatten().len() <= usize::MAX,
        ensures
            final(stdout).wf(),
            ({
                let done = old(stdout)@.value.write_vectored(slices(bufs@));
                &&& final(stdout)@ == old(stdout)@.with(done.writer)
                &&& counted(result) == done.result
            }),
    {
        stdout.inner.get_mut(&self.inner).write_vectored(bufs)
    }

    /// Passes on what is in the buffer, and flushes the stream.
    pub fn flush(&self, stdout: &mut Stdout) -> (result: Result<(), Error>)
        requires
            old(stdout).wf(),
            old(stdout)@.held_by(self.thread()),
        ensures
            final(stdout).wf(),
            ({
                let done = old(stdout)@.value.flush();
                &&& final(stdout)@ == old(stdout)@.with(done.writer)
                &&& result == done.result
            }),
    {
        stdout.inner.get_mut(&self.inner).flush()
    }

    /// Writes all of `buf`: the lines in it are passed on, and the rest is buffered.
    pub fn write_all(&self, stdout: &mut Stdout, buf: &[u8]) -> (result: Result<(), Error>)
        requires
            old(stdout).wf(),
            old(stdout)@.held_by(self.thread()),
        ensures
            final(stdout).wf(),
            ({
                let done = old(stdout)@.value.write_all(buf@);
                &&& final(stdout)@ == old(stdout)@.with(done.writer)
                &&& result == done.result
            }),
    {
        stdout.inner.get_mut(&self.inner).write_all(buf)
    }

    /// Writes all that several buffers hold.
    pub fn write_all_vectored(
        &self,
        stdout: &mut Stdout,
        bufs: &[&[u8]],
    ) -> (result: Result<(), Error>)
        requires
            old(stdout).wf(),
            old(stdout)@.held_by(self.thread()),
            slices(bufs@).flatten().len() <= usize::MAX,
        ensures
            final(stdout).wf(),
            ({
                let done = old(stdout)@.value.write_all_vectored(slices(bufs@));
                &&& final(stdout)@ == old(stdout)@.with(done.writer)
                &&& result == done.result
            }),
    {
        stdout.inner.get_mut(&self.inner).write_all_vectored(bufs)
    }

    /// Writes formatted output.
    pub fn write_fmt(&self, stdout: &mut Stdout, args: &Arguments) -> (result: Result<(), Error>)
        requires
            old(stdout).wf(),
            old(stdout)@.held_by(self.thread()),
        ensures
            final(stdout).wf(),
            ({
                let done = old(stdout)@.value.write_pieces(args@.pieces);
                &&& final(stdout)@ == old(stdout)@.with(done.writer)
                &&& result == format_result(done.result, args@.failed)
            }),
    {
        stdout.inner.get_mut(&self.inner).write_fmt(args)
    }

    /// Whether the stream can take several buffers at once.
    pub fn is_write_vectored(&self, stdout: &Stdout) -> (yes: bool)
        requires
            stdout@.held_by(self.thread()),
        ensures
            yes == stdout@.value.output.vectored,
    {
        stdout.inner.get(&self.inner).is_write_vectored()
    }
}

} // verus!
