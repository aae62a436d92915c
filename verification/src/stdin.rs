//! Standard input, shared by all who read from it.
use vstd::prelude::*;
use vstd::utf8::decode_utf8;

use crate::buf_reader::{BufReader, Reader};
use crate::bytes::{contents, counted, lengths, overwrite, NEWLINE};
use crate::error::{Error, Fault};
use crate::input_laws::holds;
use crate::raw::stdin_raw;
use crate::source::{answer_view, Input, ReadRequest};
use crate::sync::{Locked, Mutex, MutexGuard, SyncOnceCell, ThreadId};
use crate::text::{line_of, read_text_line, text_of, text_result};

verus! {

/// The size of the buffer of standard input.
pub const STDIN_BUF_SIZE: usize = 8192;

/// The standard input stream of a process.
///
/// It holds the stream with its buffer and its lock. A handle is what [`stdin()`] lends: a
/// reference to the one stream of the process, so that all handles share the buffer. A thread that
/// wants several reads to follow one another takes the lock; every other read takes it for its own
/// duration.
#[derive(Clone)]
pub struct Stdin {
    inner: Mutex<BufReader>,
}

impl View for Stdin {
    type V = Locked<Reader>;

    closed spec fn view(&self) -> Locked<Reader> {
        Locked {
            holder: self.inner@.holder,
            poisoned: self.inner@.poisoned,
            value: self.inner@.value@,
        }
    }
}

/// The lock on [`Stdin`]: it gives the thread that took it the stream for itself.
#[must_use]
pub struct StdinLock {
    inner: MutexGuard,
}

/// The lines of standard input, one at a time.
pub struct Lines {
    lock: StdinLock,
}

/// Standard input as it is when a process starts: not locked, and nothing read.
pub open spec fn fresh_stdin() -> Locked<Reader> {
    Locked {
        holder: None,
        poisoned: false,
        value: Reader {
            input: Input { answers: Seq::empty(), asked: Seq::empty(), vectored: true },
            unread: Seq::empty(),
            capacity: STDIN_BUF_SIZE as nat,
        },
    }
}

/// The stream that a use of `instance` finds: the one that is there, or else a fresh one.
pub open spec fn stdin_state(instance: Option<Stdin>) -> Locked<Reader> {
    match instance {
        Some(stdin) => stdin@,
        None => fresh_stdin(),
    }
}

/// Whether the stream in `instance` is in order, if there is one.
pub open spec fn stdin_wf(instance: Option<Stdin>) -> bool {
    instance matches Some(stdin) ==> stdin.wf()
}

/// The standard input of the process, whose one instance is kept in `instance`. The first call
/// makes it.
pub fn stdin(instance: &mut SyncOnceCell<Stdin>) -> (handle: &mut Stdin)
    requires
        stdin_wf(old(instance)@),
    ensures
        handle.wf(),
        handle@ == stdin_state(old(instance)@),
        old(instance)@ is Some ==> old(instance)@ == Some(*handle),
        final(instance)@ == Some(*final(handle)),
{
    let init = || -> (made: Stdin)
        ensures
            made.wf(),
            made@ == fresh_stdin(),
        { Stdin { inner: Mutex::new(BufReader::with_capacity(STDIN_BUF_SIZE, stdin_raw())) } };
    instance.get_or_init(init)
}

/// Takes the lock on the standard input of the process for the thread `me`. There is no result
/// where it has to wait.
pub fn stdin_locked(instance: &mut SyncOnceCell<Stdin>, me: ThreadId) -> (lock: Option<StdinLock>)
    requires
        stdin_wf(old(instance)@),
    ensures
        final(instance)@ is Some,
        stdin_wf(final(instance)@),
        ({
            let before = stdin_state(old(instance)@);
            let now = stdin_state(final(instance)@);
            match lock {
                None => before.holder is Some && now == before,
                Some(lock) => {
                    &&& before.holder is None
                    &&& lock.thread() == me
                    &&& now == (Locked { holder: Some(me), ..before })
                },
            }
        }),
{
    stdin(instance).into_locked(me)
}

impl Stdin {
    /// The buffer of the stream is in order.
    pub closed spec fn wf(&self) -> bool {
        self.inner@.value.wf()
    }

    /// The buffer of a stream that is in order holds no more than fits in it, so that the laws of
    /// input apply to it.
    pub proof fn lemma_holds(&self)
        requires
            self.wf(),
        ensures
            holds(self@.value),
            self@.value.unread.len() <= self@.value.capacity,
    {
        self.inner@.value.lemma_holds();
    }

    /// Takes the lock for the thread `me`. There is no result where it has to wait: the lock is
    /// held, be it by `me` itself.
    pub fn lock(&mut self, me: ThreadId) -> (lock: Option<StdinLock>)
        requires
            old(self).wf(),
        ensures
            final(self).wf(),
            match lock {
                None => old(self)@.holder is Some && final(self)@ == old(self)@,
                Some(lock) => {
                    &&& old(self)@.holder is None
                    &&& lock.thread() == me
                    &&& final(self)@ == (Locked { holder: Some(me), ..old(self)@ })
                },
            },
    {
        self.lock_any(me)
    }

    /// Takes the lock, also where a thread panicked while it held the lock.
    pub fn lock_any(&mut self, me: ThreadId) -> (lock: Option<StdinLock>)
        requires
            old(self).wf(),
        ensures
            final(self).wf(),
            match lock {
                None => old(self)@.holder is Some && final(self)@ == old(self)@,
                Some(lock) => {
                    &&& old(self)@.holder is None
                    &&& lock.thread() == me
                    &&& final(self)@ == (Locked { holder: Some(me), ..old(self)@ })
                },
            },
    {
        match self.inner.lock(me) {
            None => None,
            Some(Ok(guard)) => Some(StdinLock { inner: guard }),
            Some(Err(error)) => Some(StdinLock { inner: error.into_inner() }),
        }
    }

    /// Takes the lock for the thread `me`, as [`Stdin::lock`] does. It is given back by
    /// [`StdinLock::unlock`].
    pub fn into_locked(&mut self, me: ThreadId) -> (lock: Option<StdinLock>)
        requires
            old(self).wf(),
        ensures
            final(self).wf(),
            match lock {
                None => old(self)@.holder is Some && final(self)@ == old(self)@,
                Some(lock) => {
                    &&& old(self)@.holder is None
                    &&& lock.thread() == me
                    &&& final(self)@ == (Locked { holder: Some(me), ..old(self)@ })
                },
            },
    {
        self.lock_any(me)
    }

    /// Takes the lock for the thread `me` and hands out the lines of the stream.
    pub fn lines(&mut self, me: ThreadId) -> (lines: Option<Lines>)
        requires
            old(self).wf(),
        ensures
            final(self).wf(),
            match lines {
                None => old(self)@.holder is Some && final(self)@ == old(self)@,
                Some(lines) => {
                    &&& old(self)@.holder is None
                    &&& lines.thread() == me
                    &&& final(self)@ == (Locked { holder: Some(me), ..old(self)@ })
                },
            },
    {
        match self.into_locked(me) {
            None => None,
            Some(lock) => Some(Lines { lock }),
        }
    }

    /// How the handle shows itself in messages to programmers.
    pub fn fmt(&self) -> (text: String)
        ensures
            text@ == "Stdin { .. }"@,
    {
        "Stdin { .. }".to_owned()
    }

    /// Adds the next answer of the host.
    pub fn answer(&mut self, answer: Result<Vec<u8>, Error>)
        requires
            old(self).wf(),
        ensures
            final(self).wf(),
            ({
                let reader = old(self)@.value;
                let input = Input {
                    answers: reader.input.answers.push(answer_view(answer)),
                    ..reader.input
                };
                final(self)@ == old(self)@.with(Reader { input, ..reader })
            }),
    {
        self.inner.inner_mut().get_mut().0.answer(answer);
    }

    /// The first request to the host that has no answer.
    pub fn pending(&self) -> (request: Option<&ReadRequest>)
        ensures
            ({
                let input = self@.value.input;
                match request {
                    Some(request) => input.asked.len() > input.answers.len() && request@
                        == input.asked[input.answers.len() as int],
                    None => input.asked.len() <= input.answers.len(),
                }
            }),
    {
        self.inner.inner().get_ref().0.pending()
    }

    /// Forgets the requests to the host and its answers.
    pub fn settle(&mut self)
        requires
            old(self).wf(),
        ensures
            final(self).wf(),
            ({
                let reader = old(self)@.value;
                let input = Input {
                    answers: Seq::empty(),
                    asked: Seq::empty(),
                    vectored: reader.input.vectored,
                };
                final(self)@ == old(self)@.with(Reader { input, ..reader })
            }),
    {
        self.inner.inner_mut().get_mut().0.settle();
    }

    /// Reads into `buf`. There is no result where `me` has to wait for the lock.
    pub fn read(&mut self, me: ThreadId, buf: &mut [u8]) -> (done: Option<Result<usize, Error>>)
        requires
            old(self).wf(),
        ensures
            final(self).wf(),
            match done {
                None => {
                    &&& old(self)@.holder is Some
                    &&& final(self)@ == old(self)@
                    &&& final(buf)@ == old(buf)@
                },
                Some(result) => {
                    let taken = old(self)@.value.read(old(buf)@.len());
                    &&& old(self)@.holder is None
                    &&& final(self)@ == old(self)@.with(taken.reader)
                    &&& final(buf)@ == overwrite(old(buf)@, taken.data)
                    &&& counted(result) == taken.result
                },
            },
    {
        match self.lock(me) {
            None => None,
            Some(lock) => {
                let result = lock.read(self, buf);
                lock.unlock(self, false);
                Some(result)
            },
        }
    }

    /// Reads into several buffers, each in its turn. There is no result where `me` has to wait for
    /// the lock.
    pub fn read_vectored(
        &mut self,
        me: ThreadId,
        bufs: &mut Vec<Vec<u8>>,
    ) -> (done: Option<Result<usize, Error>>)
        requires
            old(self).wf(),
            contents(old(bufs)@).flatten().len() <= usize::MAX,
        ensures
            final(self).wf(),
            match done {
                None => {
                    &&& old(self)@.holder is Some
                    &&& final(self)@ == old(self)@
                    &&& final(bufs)@ == old(bufs)@
                },
                Some(result) => {
                    let all = contents(old(bufs)@);
                    let taken = old(self)@.value.read_vectored(
                        lengths(all),
                        all.flatten().len(),
                    );
                    &&& old(self)@.holder is None
                    &&& final(self)@ == old(self)@.with(taken.reader)
                    &&& lengths(contents(final(bufs)@)) == lengths(all)
                    &&& contents(final(bufs)@).flatten() == overwrite(all.flatten(), taken.data)
                    &&& counted(result) == taken.result
                },
            },
    {
        match self.lock(me) {
            None => None,
            Some(lock) => {
                let result = lock.read_vectored(self, bufs);
                lock.unlock(self, false);
                Some(result)
            },
        }
    }

    /// Reads what is left of the stream, and adds it to `buf`. There is no result where `me` has to
    /// wait for the lock.
    pub fn read_to_end(
        &mut self,
        me: ThreadId,
        buf: &mut Vec<u8>,
    ) -> (done: Option<Result<usize, Error>>)
        requires
            old(self).wf(),
        ensures
            final(self).wf(),
            match done {
                None => {
                    &&& old(self)@.holder is Some
                    &&& final(self)@ == old(self)@
                    &&& final(buf)@ == old(buf)@
                },
                Some(result) => {
                    let taken = old(self)@.value.read_to_end();
                    &&& old(self)@.holder is None
                    &&& final(self)@ == old(self)@.with(taken.reader)
                    &&& final(buf)@ == old(buf)@ + taken.data
                    &&& counted(result) == taken.result
                },
            },
    {
        match self.lock(me) {
            None => None,
            Some(lock) => {
                let result = lock.read_to_end(self, buf);
                lock.unlock(self, false);
                Some(result)
            },
        }
    }

    /// Reads what is left of the stream as text, and adds it to `buf`. There is no result where
    /// `me` has to wait for the lock.
    pub fn read_to_string(
        &mut self,
        me: ThreadId,
        buf: &mut String,
    ) -> (done: Option<Result<usize, Error>>)
        requires
            old(self).wf(),
        ensures
            final(self).wf(),
            match done {
                None => {
                    &&& old(self)@.holder is Some
                    &&& final(self)@ == old(self)@
                    &&& final(buf)@ == old(buf)@
                },
                Some(result) => {
                    let taken = old(self)@.value.read_to_end();
                    &&& old(self)@.holder is None
                    &&& final(self)@ == old(self)@.with(taken.reader)
                    &&& final(buf)@ == old(buf)@ + text_of(taken.data)
                    &&& counted(result) == text_result(taken.data, taken.result)
                },
            },
    {
        match self.lock(me) {
            None => None,
            Some(lock) => {
                let result = lock.read_to_string(self, buf);
                lock.unlock(self, false);
                Some(result)
            },
        }
    }

    /// Reads until `buf` is full. There is no result where `me` has to wait for the lock.
    pub fn read_exact(&mut self, me: ThreadId, buf: &mut [u8]) -> (done: Option<Result<(), Error>>)
        requires
            old(self).wf(),
        ensures
            final(self).wf(),
            match done {
                None => {
                    &&& old(self)@.holder is Some
                    &&& final(self)@ == old(self)@
                    &&& final(buf)@ == old(buf)@
                },
                Some(result) => {
                    let taken = old(self)@.value.read_exact(old(buf)@.len());
                    &&& old(self)@.holder is None
                    &&& final(self)@ == old(self)@.with(taken.reader)
                    &&& final(buf)@ == overwrite(old(buf)@, taken.data)
                    &&& match result {
                        Ok(()) => taken.result == Ok::<nat, Error>(old(buf)@.len()),
                        Err(error) => taken.result == Err::<nat, Error>(error),
                    }
                },
            },
    {
        match self.lock(me) {
            None => None,
            Some(lock) => {
                let result = lock.read_exact(self, buf);
                lock.unlock(self, false);
                Some(result)
            },
        }
    }

    /// Reads a line as text, with what ends it, and adds it to `buf`. There is no result where `me`
    /// has to wait for the lock.
    pub fn read_line(
        &mut self,
        me: ThreadId,
        buf: &mut String,
    ) -> (done: Option<Result<usize, Error>>)
        requires
            old(self).wf(),
        ensures
            final(self).wf(),
            match done {
                None => {
                    &&& old(self)@.holder is Some
                    &&& final(self)@ == old(self)@
                    &&& final(buf)@ == old(buf)@
                },
                Some(result) => {
                    let taken = old(self)@.value.read_until(NEWLINE);
                    &&& old(self)@.holder is None
                    &&& final(self)@ == old(self)@.with(taken.reader)
                    &&& final(buf)@ == old(buf)@ + text_of(taken.data)
                    &&& counted(result) == text_result(taken.data, taken.result)
                },
            },
    {
        match self.lock(me) {
            None => None,
            Some(lock) => {
                let result = lock.read_line(self, buf);
                lock.unlock(self, false);
                Some(result)
            },
        }
    }

    /// Whether the stream can fill several buffers at once. There is no result where `me` has to
    /// wait for the lock.
    pub fn is_read_vectored(&mut self, me: ThreadId) -> (done: Option<bool>)
        requires
            old(self).wf(),
        ensures
            final(self).wf(),
            final(self)@ == old(self)@,
            match done {
                None => old(self)@.holder is Some,
                Some(yes) => old(self)@.holder is None && yes
                    == old(self)@.value.input.vectored,
            },
    {
        match self.lock(me) {
            None => None,
            Some(lock) => {
                let yes = lock.is_read_vectored(self);
                lock.unlock(self, false);
                Some(yes)
            },
        }
    }
}

impl StdinLock {
    /// The thread that holds the lock.
    pub closed spec fn thread(&self) -> ThreadId {
        self.inner.thread()
    }

    /// Gives the lock back; `panicking` says that the thread does so in a panic.
    pub fn unlock(self, stdin: &mut Stdin, panicking: bool)
        requires
            old(stdin).wf(),
            old(stdin)@.holder == Some(self.thread()),
        ensures
            final(stdin).wf(),
            final(stdin)@ == (Locked {
                holder: None,
                poisoned: old(stdin)@.poisoned || panicking,
                value: old(stdin)@.value,
            }),
    {
        stdin.inner.unlock(self.inner, panicking);
    }

    /// The buffered stream.
    pub fn as_mut_buf<'a>(&self, stdin: &'a mut Stdin) -> (reader: &'a mut BufReader)
        requires
            old(stdin).wf(),
            old(stdin)@.holder == Some(self.thread()),
        ensures
            reader.wf(),
            reader@ == old(stdin)@.value,
            final(reader).wf() ==> final(stdin).wf(),
            final(stdin)@ == old(stdin)@.with(final(reader)@),
    {
        stdin.inner.get_mut(&self.inner)
    }

    /// How the lock shows itself in messages to programmers.
    pub fn fmt(&self) -> (text: String)
        ensures
            text@ == "StdinLock { .. }"@,
    {
        "StdinLock { .. }".to_owned()
    }

    /// Reads into `buf`.
    pub fn read(&self, stdin: &mut Stdin, buf: &mut [u8]) -> (result: Result<usize, Error>)
        requires
            old(stdin).wf(),
            old(stdin)@.holder == Some(self.thread()),
        ensures
            final(stdin).wf(),
            ({
                let taken = old(stdin)@.value.read(old(buf)@.len());
                &&& final(stdin)@ == old(stdin)@.with(taken.reader)
                &&& final(buf)@ == overwrite(old(buf)@, taken.data)
                &&& counted(result) == taken.result
            }),
    {
        stdin.inner.get_mut(&self.inner).read(buf)
    }

    /// Reads into several buffers, each in its turn.
    pub fn read_vectored(
        &self,
        stdin: &mut Stdin,
        bufs: &mut Vec<Vec<u8>>,
    ) -> (result: Result<usize, Error>)
        requires
            old(stdin).wf(),
            old(stdin)@.holder == Some(self.thread()),
            contents(old(bufs)@).flatten().len() <= usize::MAX,
        ensures
            final(stdin).wf(),
            ({
                let all = contents(old(bufs)@);
                let taken = old(stdin)@.value.read_vectored(
                    lengths(all),
                    all.flatten().len(),
                );
                &&& final(stdin)@ == old(stdin)@.with(taken.reader)
                &&& lengths(contents(final(bufs)@)) == lengths(all)
                &&& contents(final(bufs)@).flatten() == overwrite(all.flatten(), taken.data)
                &&& counted(result) == taken.result
            }),
    {
        stdin.inner.get_mut(&self.inner).read_vectored(bufs)
    }

    /// Reads what is left of the stream, and adds it to `buf`.
    pub fn read_to_end(
        &self,
        stdin: &mut Stdin,
        buf: &mut Vec<u8>,
    ) -> (result: Result<usize, Error>)
        requires
            old(stdin).wf(),
            old(stdin)@.holder == Some(self.thread()),
        ensures
            final(stdin).wf(),
            ({
                let taken = old(stdin)@.value.read_to_end();
                &&& final(stdin)@ == old(stdin)@.with(taken.reader)
                &&& final(buf)@ == old(buf)@ + taken.data
                &&& counted(result) == taken.result
            }),
    {
        stdin.inner.get_mut(&self.inner).read_to_end(buf)
    }

    /// Reads what is left of the stream as text, and adds it to `buf`.
    pub fn read_to_string(
        &self,
        stdin: &mut Stdin,
        buf: &mut String,
    ) -> (result: Result<usize, Error>)
        requires
            old(stdin).wf(),
            old(stdin)@.holder == Some(self.thread()),
        ensures
            final(stdin).wf(),
            ({
                let taken = old(stdin)@.value.read_to_end();
                &&& final(stdin)@ == old(stdin)@.with(taken.reader)
                &&& final(buf)@ == old(buf)@ + text_of(taken.data)
                &&& counted(result) == text_result(taken.data, taken.result)
            }),
    {
        stdin.inner.get_mut(&self.inner).read_to_string(buf)
    }

    /// Reads until `buf` is full.
    pub fn read_exact(&self, stdin: &mut Stdin, buf: &mut [u8]) -> (result: Result<(), Error>)
        requires
            old(stdin).wf(),
            old(stdin)@.holder == Some(self.thread()),
        ensures
            final(stdin).wf(),
            ({
                let taken = old(stdin)@.value.read_exact(old(buf)@.len());
                &&& final(stdin)@ == old(stdin)@.with(taken.reader)
                &&& final(buf)@ == overwrite(old(buf)@, taken.data)
                &&& match result {
                    Ok(()) => taken.result == Ok::<nat, Error>(old(buf)@.len()),
                    Err(error) => taken.result == Err::<nat, Error>(error),
                }
            }),
    {
        stdin.inner.get_mut(&self.inner).read_exact(buf)
    }

    /// Reads up to and with the first `byte`, and adds it to `buf`.
    pub fn read_until(
        &self,
        stdin: &mut Stdin,
        byte: u8,
        buf: &mut Vec<u8>,
    ) -> (result: Result<usize, Error>)
        requires
            old(stdin).wf(),
            old(stdin)@.holder == Some(self.thread()),
        ensures
            final(stdin).wf(),
            ({
                let taken = old(stdin)@.value.read_until(byte);
                &&& final(stdin)@ == old(stdin)@.with(taken.reader)
                &&& final(buf)@ == old(buf)@ + taken.data
                &&& counted(result) == taken.result
            }),
    {
        stdin.inner.get_mut(&self.inner).read_until(byte, buf)
    }

    /// Reads a line as text, with what ends it, and adds it to `buf`.
    pub fn read_line(&self, stdin: &mut Stdin, buf: &mut String) -> (result: Result<usize, Error>)
        requires
            old(stdin).wf(),
            old(stdin)@.holder == Some(self.thread()),
        ensures
            final(stdin).wf(),
            ({
                let taken = old(stdin)@.value.read_until(NEWLINE);
                &&& final(stdin)@ == old(stdin)@.with(taken.reader)
                &&& final(buf)@ == old(buf)@ + text_of(taken.data)
                &&& counted(result) == text_result(taken.data, taken.result)
            }),
    {
        stdin.inner.get_mut(&self.inner).read_line(buf)
    }

    /// Whether the stream can fill several buffers at once.
    pub fn is_read_vectored(&self, stdin: &Stdin) -> (yes: bool)
        requires
            stdin@.holder == Some(self.thread()),
        ensures
            yes == stdin@.value.input.vectored,
    {
        stdin.inner.get(&self.inner).is_read_vectored()
    }

    /// Fills the buffer where it is empty, and lends what is in it.
    pub fn fill_buf<'a>(&self, stdin: &'a mut Stdin) -> (result: Result<&'a [u8], Error>)
        requires
            old(stdin).wf(),
            old(stdin)@.holder == Some(self.thread()),
        ensures
            final(stdin).wf(),
            ({
                let (reader, filled) = old(stdin)@.value.fill();
                &&& final(stdin)@ == old(stdin)@.with(reader)
                &&& match result {
                    Ok(unread) => filled is Ok && unread@ == reader.unread,
                    Err(error) => filled == Err::<(), Error>(error),
                }
            }),
    {
        stdin.inner.get_mut(&self.inner).fill_buf()
    }

    /// Marks `n` bytes of the buffer as handed out.
    pub fn consume(&self, stdin: &mut Stdin, n: usize)
        requires
            old(stdin).wf(),
            old(stdin)@.holder == Some(self.thread()),
        ensures
            final(stdin).wf(),
            final(stdin)@ == old(stdin)@.with(old(stdin)@.value.consume(n as nat)),
    {
        stdin.inner.get_mut(&self.inner).consume(n)
    }
}

impl Lines {
    /// The thread that holds the lock.
    pub closed spec fn thread(&self) -> ThreadId {
        self.lock.thread()
    }

    /// Gives the lock back.
    pub fn into_lock(self) -> (lock: StdinLock)
        ensures
            lock.thread() == self.thread(),
    {
        self.lock
    }

    /// The next line, without what ends it. There is none when the input has ended.
    pub fn next(&self, stdin: &mut Stdin) -> (line: Option<Result<String, Error>>)
        requires
            old(stdin).wf(),
            old(stdin)@.holder == Some(self.thread()),
        ensures
            final(stdin).wf(),
            ({
                let taken = old(stdin)@.value.read_until(NEWLINE);
                &&& final(stdin)@ == old(stdin)@.with(taken.reader)
                &&& match text_result(taken.data, taken.result) {
                    Err(error) => line == Some(Err::<String, Error>(error)),
                    Ok(count) => if count == 0 {
                        line is None
                    } else {
                        &&& line matches Some(Ok(text))
                        &&& text@ == decode_utf8(line_of(taken.data))
                    },
                }
            }),
    {
        let mut data: Vec<u8> = Vec::new();
        let result = self.lock.read_until(stdin, NEWLINE, &mut data);
        assert(data@ =~= old(stdin)@.value.read_until(NEWLINE).data);
        match result {
            Err(error) => Some(Err(error)),
            Ok(count) => match read_text_line(data.as_slice()) {
                Some(text) => {
                    if count == 0 {
                        None
                    } else {
                        Some(Ok(text))
                    }
                },
                None => Some(Err(Error::Fault(Fault::InvalidUtf8))),
            },
        }
    }
}

} // verus!
