//! The raw handles: the host's ends of the standard streams, without buffer and without lock.
//!
//! A standard stream may be closed when a program starts. A raw handle hides that: a closed input
//! has ended, and a closed output swallows what is written to it.
use vstd::prelude::*;

use crate::bytes::{contents, counted, lengths, overwrite, slices, total};
use crate::error::{forgiven, is_ebadf, Error};
use crate::format::Arguments;
use crate::sink::{format_result, Output, Sink, WriteAsk};
use crate::source::{count_of, data_of, Input, ReadAsk, Source};
use crate::text::{text_of, text_result};

verus! {

/// A handle to the standard input stream, not buffered and not locked.
#[derive(Clone, Debug)]
pub struct StdinRaw(pub Source);

/// A handle to the standard output stream, not buffered and not locked.
#[derive(Clone, Debug)]
pub struct StdoutRaw(pub Sink);

/// A handle to the standard error stream, not buffered and not locked.
#[derive(Clone, Debug)]
pub struct StderrRaw(pub Sink);

impl View for StdinRaw {
    type V = Input;

    open spec fn view(&self) -> Input {
        self.0@
    }
}

impl View for StdoutRaw {
    type V = Output;

    open spec fn view(&self) -> Output {
        self.0@
    }
}

impl View for StderrRaw {
    type V = Output;

    open spec fn view(&self) -> Output {
        self.0@
    }
}

/// A new raw handle to standard input.
pub fn stdin_raw() -> (raw: StdinRaw)
    ensures
        raw@ == (Input { answers: Seq::empty(), asked: Seq::empty(), vectored: true }),
{
    StdinRaw(Source::new())
}

/// A new raw handle to standard output.
pub fn stdout_raw() -> (raw: StdoutRaw)
    ensures
        raw@ == (Output { answers: Seq::empty(), asked: Seq::empty(), vectored: true }),
{
    StdoutRaw(Sink::new())
}

/// A new raw handle to standard error.
pub fn stderr_raw() -> (raw: StderrRaw)
    ensures
        raw@ == (Output { answers: Seq::empty(), asked: Seq::empty(), vectored: true }),
{
    StderrRaw(Sink::new())
}

/// Puts `default` in the place of the error that the stream is not open.
pub fn handle_ebadf<T>(r: Result<T, Error>, default: T) -> (handled: Result<T, Error>)
    ensures
        handled == forgiven(r, default),
{
    match r {
        Err(error) => {
            if is_ebadf(&error) {
                Ok(default)
            } else {
                Err(error)
            }
        },
        Ok(value) => Ok(value),
    }
}

impl StdinRaw {
    /// Fills `buf` from the stream. A closed stream has ended.
    pub fn read(&mut self, buf: &mut [u8]) -> (result: Result<usize, Error>)
        ensures
            final(self)@ == old(self)@.after_read(old(buf)@.len()),
            ({
                let got = forgiven(old(self)@.reply_within(old(buf)@.len()), Seq::empty());
                &&& final(buf)@ == overwrite(old(buf)@, data_of(got))
                &&& counted(result) == count_of(got)
            }),
    {
        handle_ebadf(self.0.read(buf), 0)
    }

    /// Fills several buffers from the stream, each in its turn.
    pub fn read_vectored(&mut self, bufs: &mut Vec<Vec<u8>>) -> (result: Result<usize, Error>)
        ensures
            final(self)@ == old(self)@.ask(
                ReadAsk::ReadVectored(lengths(contents(old(bufs)@))),
            ),
            ({
                let all = contents(old(bufs)@).flatten();
                let got = forgiven(old(self)@.reply_within(all.len()), Seq::empty());
                &&& lengths(contents(final(bufs)@)) == lengths(contents(old(bufs)@))
                &&& contents(final(bufs)@).flatten() == overwrite(all, data_of(got))
                &&& counted(result) == count_of(got)
            }),
    {
        handle_ebadf(self.0.read_vectored(bufs), 0)
    }

    /// Whether the stream can fill several buffers at once.
    pub fn is_read_vectored(&self) -> (yes: bool)
        ensures
            yes == self@.vectored,
    {
        self.0.is_read_vectored()
    }

    /// Reads what is left of the stream, and adds it to `buf`.
    pub fn read_to_end(&mut self, buf: &mut Vec<u8>) -> (result: Result<usize, Error>)
        ensures
            ({
                let got = old(self)@.read_to_end();
                &&& final(self)@ == got.input
                &&& final(buf)@ == old(buf)@ + got.data
                &&& counted(result) == forgiven(got.result, 0)
            }),
    {
        handle_ebadf(self.0.read_to_end(buf), 0)
    }

    /// Reads what is left of the stream as text, and adds it to `buf`.
    pub fn read_to_string(&mut self, buf: &mut String) -> (result: Result<usize, Error>)
        ensures
            ({
                let got = old(self)@.read_to_end();
                &&& final(self)@ == got.input
                &&& final(buf)@ == old(buf)@ + text_of(got.data)
                &&& counted(result) == forgiven(text_result(got.data, got.result), 0)
            }),
    {
        handle_ebadf(self.0.read_to_string(buf), 0)
    }
}

impl StdoutRaw {
    /// Writes `buf` to the stream, or some of it from the start. A closed stream takes all of it.
    pub fn write(&mut self, buf: &[u8]) -> (result: Result<usize, Error>)
        ensures
            final(self)@ == old(self)@.ask(WriteAsk::Write(buf@)),
            counted(result) == forgiven(old(self)@.reply_within(buf@.len()), buf@.len()),
    {
        handle_ebadf(self.0.write(buf), buf.len())
    }

    /// Writes what several buffers hold, or some of it from the start.
    pub fn write_vectored(&mut self, bufs: &[&[u8]]) -> (result: Result<usize, Error>)
        requires
            slices(bufs@).flatten().len() <= usize::MAX,
        ensures
            final(self)@ == old(self)@.ask(WriteAsk::WriteVectored(slices(bufs@))),
            ({
                let len = slices(bufs@).flatten().len();
                counted(result) == forgiven(old(self)@.reply_within(len), len)
            }),
    {
        let total: usize = total(bufs);
        handle_ebadf(self.0.write_vectored(bufs), total)
    }

    /// Whether the stream can take several buffers at once.
    pub fn is_write_vectored(&self) -> (yes: bool)
        ensures
            yes == self@.vectored,
    {
        self.0.is_write_vectored()
    }

    /// Flushes the stream.
    pub fn flush(&mut self) -> (result: Result<(), Error>)
        ensures
            final(self)@ == old(self)@.ask(WriteAsk::Flush),
            result == forgiven(old(self)@.reply_flush(), ()),
    {
        handle_ebadf(self.0.flush(), ())
    }

    /// Writes all of `buf` to the stream.
    pub fn write_all(&mut self, buf: &[u8]) -> (result: Result<(), Error>)
        ensures
            ({
                let drained = old(self)@.write_all(buf@);
                &&& final(self)@ == drained.output
                &&& result == forgiven(drained.result, ())
            }),
    {
        handle_ebadf(self.0.write_all(buf), ())
    }

    /// Writes all that several buffers hold.
    pub fn write_all_vectored(&mut self, bufs: &[&[u8]]) -> (result: Result<(), Error>)
        ensures
            ({
                let drained = old(self)@.write_all_vectored(slices(bufs@));
                &&& final(self)@ == drained.output
                &&& result == forgiven(drained.result, ())
            }),
    {
        handle_ebadf(self.0.write_all_vectored(bufs), ())
    }

    /// Writes formatted output.
    pub fn write_fmt(&mut self, fmt: &Arguments) -> (result: Result<(), Error>)
        ensures
            ({
                let drained = old(self)@.write_pieces(fmt@.pieces);
                &&& final(self)@ == drained.output
                &&& result == forgiven(format_result(drained.result, fmt@.failed), ())
            }),
    {
        handle_ebadf(self.0.write_fmt(fmt), ())
    }
}

impl StderrRaw {
    /// Writes `buf` to the stream, or some of it from the start. A closed stream takes all of it.
    pub fn write(&mut self, buf: &[u8]) -> (result: Result<usize, Error>)
        ensures
            final(self)@ == old(self)@.ask(WriteAsk::Write(buf@)),
            counted(result) == forgiven(old(self)@.reply_within(buf@.len()), buf@.len()),
    {
        handle_ebadf(self.0.write(buf), buf.len())
    }

    /// Writes what several buffers hold, or some of it from the start.
    pub fn write_vectored(&mut self, bufs: &[&[u8]]) -> (result: Result<usize, Error>)
        requires
            slices(bufs@).flatten().len() <= usize::MAX,
        ensures
            final(self)@ == old(self)@.ask(WriteAsk::WriteVectored(slices(bufs@))),
            ({
                let len = slices(bufs@).flatten().len();
                counted(result) == forgiven(old(self)@.reply_within(len), len)
            }),
    {
        let total: usize = total(bufs);
        handle_ebadf(self.0.write_vectored(bufs), total)
    }

    /// Whether the stream can take several buffers at once.
    pub fn is_write_vectored(&self) -> (yes: bool)
        ensures
            yes == self@.vectored,
    {
        self.0.is_write_vectored()
    }

    /// Flushes the stream.
    pub fn flush(&mut self) -> (result: Result<(), Error>)
        ensures
            final(self)@ == old(self)@.ask(WriteAsk::Flush),
            result == forgiven(old(self)@.reply_flush(), ()),
    {
        handle_ebadf(self.0.flush(), ())
    }

    /// Writes all of `buf` to the stream.
    pub fn write_all(&mut self, buf: &[u8]) -> (result: Result<(), Error>)
        ensures
            ({
                let drained = old(self)@.write_all(buf@);
                &&& final(self)@ == drained.output
                &&& result == forgiven(drained.result, ())
            }),
    {
        handle_ebadf(self.0.write_all(buf), ())
    }

    /// Writes all that several buffers hold.
    pub fn write_all_vectored(&mut self, bufs: &[&[u8]]) -> (result: Result<(), Error>)
        ensures
            ({
                let drained = old(self)@.write_all_vectored(slices(bufs@));
                &&& final(self)@ == drained.output
                &&& result == forgiven(drained.result, ())
            }),
    {
        handle_ebadf(self.0.write_all_vectored(bufs), ())
    }

    /// Writes formatted output.
    pub fn write_fmt(&mut self, fmt: &Arguments) -> (result: Result<(), Error>)
        ensures
            ({
                let drained = old(self)@.write_pieces(fmt@.pieces);
                &&& final(self)@ == drained.output
                &&& result == forgiven(format_result(drained.result, fmt@.failed), ())
            }),
    {
        handle_ebadf(self.0.write_fmt(fmt), ())
    }
}

} // verus!
