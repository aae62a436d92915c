//! Output that is buffered by lines.
use vstd::prelude::*;

use crate::bytes::{
    advance, advance_slices, counted, least, lemma_advance, lemma_flatten_prefix,
    lemma_flatten_take, slices, total, NEWLINE,
};
use crate::error::{forgiven, Error, Fault};
use crate::format::Arguments;
use crate::line_ends::{
    lemma_flush_buf_ends_lines, lemma_write_all_ends_lines, lemma_write_ends_lines,
    lemma_write_vectored_ends_lines,
};
use crate::raw::StdoutRaw;
use crate::scan::{find_last, lemma_through_last, through_last};
use crate::sink::{format_result, Output, WriteAsk};

verus! {

/// The size of the buffer where none is given.
pub const LINE_BUFFER: usize = 1024;

/// A raw handle to standard output with a buffer: whole lines are passed on as soon as they are
/// complete, and the start of a line waits in the buffer as long as it fits.
#[derive(Clone, Debug)]
pub struct LineWriter {
    inner: StdoutRaw,
    buf: Vec<u8>,
    capacity: usize,
}

/// The contents of a [`LineWriter`].
#[verifier::ext_equal]
pub struct Writer {
    /// The host's end of the stream.
    pub output: Output,
    /// The bytes that wait to be passed on.
    pub buffered: Seq<u8>,
    /// The size of the buffer.
    pub capacity: nat,
}

impl View for LineWriter {
    type V = Writer;

    closed spec fn view(&self) -> Writer {
        Writer {
            output: self.inner@,
            buffered: self.buf@,
            capacity: self.capacity as nat,
        }
    }
}

/// What an operation on a [`Writer`] does: the writer after it, and what it returns.
#[verifier::ext_equal]
pub struct Done<T> {
    pub writer: Writer,
    pub result: Result<T, Error>,
}

/// How many of the buffers there are up to and with the last one that holds the end of a line,
/// none if there is no such buffer.
pub open spec fn through_last_line(data: Seq<Seq<u8>>) -> nat
    decreases data.len(),
{
    if data.len() == 0 {
        0
    } else if through_last(data.last(), NEWLINE) > 0 {
        data.len()
    } else {
        through_last_line(data.drop_last())
    }
}

/// The first buffer that is not empty.
pub open spec fn first_filled(data: Seq<Seq<u8>>) -> Option<Seq<u8>>
    decreases data.len(),
{
    if data.len() == 0 {
        None
    } else if data[0].len() > 0 {
        Some(data[0])
    } else {
        first_filled(data.drop_first())
    }
}

impl Writer {
    /// Whether the buffer holds no more than fits in it.
    pub open spec fn fits(self) -> bool {
        self.buffered.len() <= self.capacity
    }

    /// Whether no complete line waits together with the start of the next one: a buffer that holds
    /// the end of a line ends with it.
    pub open spec fn ends_lines(self) -> bool {
        self.buffered.contains(NEWLINE) ==> self.buffered.last() == NEWLINE
    }

    /// The room in the buffer.
    pub open spec fn spare(self) -> nat {
        if self.buffered.len() <= self.capacity {
            (self.capacity - self.buffered.len()) as nat
        } else {
            0
        }
    }

    /// The writer with `data` added to its buffer.
    pub open spec fn push(self, data: Seq<u8>) -> Writer {
        Writer { buffered: self.buffered + data, ..self }
    }

    /// Passes on what is in the buffer. What the host did not take stays there.
    pub open spec fn flush_buf(self) -> Done<()> {
        let drained = self.output.drain(self.buffered, true, Fault::WriteBuffered);
        Done {
            writer: Writer { output: drained.output, buffered: drained.rest, ..self },
            result: drained.result,
        }
    }

    /// Passes on what is in the buffer if `data` of the length `len` does not fit beside it.
    pub open spec fn make_room(self, len: nat) -> Done<()> {
        if len > self.spare() {
            self.flush_buf()
        } else {
            Done { writer: self, result: Ok(()) }
        }
    }

    /// Passes on what is in the buffer if it ends with the end of a line.
    pub open spec fn flush_if_completed_line(self) -> Done<()> {
        if self.buffered.len() > 0 && self.buffered.last() == NEWLINE {
            self.flush_buf()
        } else {
            Done { writer: self, result: Ok(()) }
        }
    }

    /// Makes one request to write `data`, past the buffer.
    pub open spec fn direct(self, data: Seq<u8>) -> Done<nat> {
        Done {
            writer: Writer { output: self.output.ask(WriteAsk::Write(data)), ..self },
            result: forgiven(self.output.reply_within(data.len()), data.len()),
        }
    }

    /// Makes one request to write what several buffers hold, past the buffer.
    pub open spec fn direct_vectored(self, data: Seq<Seq<u8>>) -> Done<nat> {
        let len = data.flatten().len();
        Done {
            writer: Writer { output: self.output.ask(WriteAsk::WriteVectored(data)), ..self },
            result: forgiven(self.output.reply_within(len), len),
        }
    }

    /// Writes all of `data`, past the buffer.
    pub open spec fn direct_all(self, data: Seq<u8>) -> Done<()> {
        let drained = self.output.write_all(data);
        Done {
            writer: Writer { output: drained.output, ..self },
            result: forgiven(drained.result, ()),
        }
    }

    /// Buffers `data`, or passes it on where the buffer is too small for it.
    pub open spec fn write_buffered(self, data: Seq<u8>) -> Done<nat> {
        let room = self.make_room(data.len());
        match room.result {
            Err(error) => Done { writer: room.writer, result: Err(error) },
            Ok(_) => if data.len() >= self.capacity {
                room.writer.direct(data)
            } else {
                Done { writer: room.writer.push(data), result: Ok(data.len()) }
            },
        }
    }

    /// Buffers all of `data`, or passes it on where the buffer is too small for it.
    pub open spec fn write_all_buffered(self, data: Seq<u8>) -> Done<()> {
        let room = self.make_room(data.len());
        match room.result {
            Err(_) => room,
            Ok(_) => if data.len() >= self.capacity {
                room.writer.direct_all(data)
            } else {
                Done { writer: room.writer.push(data), result: Ok(()) }
            },
        }
    }

    /// Buffers what several buffers hold, or passes it on where the buffer is too small for it.
    pub open spec fn write_vectored_buffered(self, data: Seq<Seq<u8>>) -> Done<nat> {
        let len = data.flatten().len();
        let room = self.make_room(len);
        match room.result {
            Err(error) => Done { writer: room.writer, result: Err(error) },
            Ok(_) => if len >= self.capacity {
                room.writer.direct_vectored(data)
            } else {
                Done { writer: room.writer.push(data.flatten()), result: Ok(len) }
            },
        }
    }

    /// The part of `data` to buffer, after the host took `flushed` bytes of it and the lines in it
    /// end with byte `lines`: the start of the next line, or as many of the lines that are left
    /// as fit in the buffer, or as much of one line as fits.
    pub open spec fn tail_to_buffer(self, data: Seq<u8>, lines: nat, flushed: nat) -> Seq<u8> {
        if flushed >= lines {
            data.skip(flushed as int)
        } else if lines - flushed <= self.capacity {
            data.subrange(flushed as int, lines as int)
        } else {
            let fitting = data.subrange(flushed as int, (flushed + self.capacity) as int);
            if through_last(fitting, NEWLINE) > 0 {
                fitting.take(through_last(fitting, NEWLINE) as int)
            } else {
                fitting
            }
        }
    }

    /// Buffers as much of `data` as fits.
    pub open spec fn fit(self, data: Seq<u8>) -> Writer {
        self.push(data.take(least(self.spare(), data.len()) as int))
    }

    /// Writes `data`: the lines in it are passed on at one request, after what is in the buffer,
    /// and the rest is buffered.
    pub open spec fn write(self, data: Seq<u8>) -> Done<nat> {
        let lines = through_last(data, NEWLINE);
        if lines == 0 {
            let ready = self.flush_if_completed_line();
            match ready.result {
                Err(error) => Done { writer: ready.writer, result: Err(error) },
                Ok(_) => ready.writer.write_buffered(data),
            }
        } else {
            let ready = self.flush_buf();
            match ready.result {
                Err(error) => Done { writer: ready.writer, result: Err(error) },
                Ok(_) => {
                    let sent = ready.writer.direct(data.take(lines as int));
                    match sent.result {
                        Err(_) => sent,
                        Ok(flushed) => if flushed == 0 {
                            sent
                        } else {
                            let tail = sent.writer.tail_to_buffer(data, lines, flushed);
                            Done {
                                writer: sent.writer.fit(tail),
                                result: Ok(flushed + least(sent.writer.spare(), tail.len())),
                            }
                        },
                    }
                },
            }
        }
    }

    /// Writes what several buffers hold: those with lines in them are passed on at one request,
    /// and the others are buffered. A host that takes one buffer at a time gets the first that is
    /// not empty.
    pub open spec fn write_vectored(self, data: Seq<Seq<u8>>) -> Done<nat> {
        let lines = through_last_line(data);
        if !self.output.vectored {
            match first_filled(data) {
                Some(first) => self.write(first),
                None => Done { writer: self, result: Ok(0) },
            }
        } else if lines == 0 {
            let ready = self.flush_if_completed_line();
            match ready.result {
                Err(error) => Done { writer: ready.writer, result: Err(error) },
                Ok(_) => ready.writer.write_vectored_buffered(data),
            }
        } else {
            let ready = self.flush_buf();
            match ready.result {
                Err(error) => Done { writer: ready.writer, result: Err(error) },
                Ok(_) => {
                    let sent = ready.writer.direct_vectored(data.take(lines as int));
                    match sent.result {
                        Err(_) => sent,
                        Ok(flushed) => if flushed == 0 || flushed < data.take(
                            lines as int,
                        ).flatten().len() {
                            sent
                        } else {
                            let tail = data.skip(lines as int).flatten();
                            Done {
                                writer: sent.writer.fit(tail),
                                result: Ok(flushed + least(sent.writer.spare(), tail.len())),
                            }
                        },
                    }
                },
            }
        }
    }

    /// Passes on what is in the buffer, and flushes the stream.
    pub open spec fn flush(self) -> Done<()> {
        let flushed = self.flush_buf();
        match flushed.result {
            Err(_) => flushed,
            Ok(_) => Done {
                writer: Writer {
                    output: flushed.writer.output.ask(WriteAsk::Flush),
                    ..flushed.writer
                },
                result: forgiven(flushed.writer.output.reply_flush(), ()),
            },
        }
    }

    /// Passes on all of `data`, which ends a line, after what is in the buffer.
    pub open spec fn write_lines(self, data: Seq<u8>) -> Done<()> {
        if self.buffered.len() == 0 {
            self.direct_all(data)
        } else {
            let joined = self.write_all_buffered(data);
            match joined.result {
                Err(_) => joined,
                Ok(_) => joined.writer.flush_buf(),
            }
        }
    }

    /// Writes all of `data`: the lines in it are passed on, and the rest is buffered.
    pub open spec fn write_all(self, data: Seq<u8>) -> Done<()> {
        let lines = through_last(data, NEWLINE);
        let ready = if lines == 0 {
            self.flush_if_completed_line()
        } else {
            self.write_lines(data.take(lines as int))
        };
        match ready.result {
            Err(_) => ready,
            Ok(_) => ready.writer.write_all_buffered(data.skip(lines as int)),
        }
    }

    /// Writes all of the pieces, one after the other.
    pub open spec fn write_pieces(self, pieces: Seq<Seq<u8>>) -> Done<()>
        decreases pieces.len(),
    {
        if pieces.len() == 0 {
            Done { writer: self, result: Ok(()) }
        } else {
            let first = self.write_all(pieces[0]);
            match first.result {
                Err(_) => first,
                Ok(_) => first.writer.write_pieces(pieces.drop_first()),
            }
        }
    }

    /// Writes all that several buffers hold, of which the first is not empty.
    pub open spec fn drain_vectored(self, data: Seq<Seq<u8>>) -> Done<()>
        decreases self.output.left(), data.flatten().len(),
    {
        if data.len() == 0 {
            Done { writer: self, result: Ok(()) }
        } else {
            let part = self.write_vectored(data);
            proof {
                lemma_write_vectored_progress(self, data);
            }
            match part.result {
                Ok(count) => if count == 0 {
                    Done {
                        writer: part.writer,
                        result: Err(Error::Fault(Fault::WriteBuffer)),
                    }
                } else {
                    proof {
                        lemma_advance(data, count);
                    }
                    part.writer.drain_vectored(advance(data, count))
                },
                Err(error) => if error.interrupted() {
                    part.writer.drain_vectored(data)
                } else {
                    Done { writer: part.writer, result: Err(error) }
                },
            }
        }
    }

    /// Writes all that several buffers hold.
    pub open spec fn write_all_vectored(self, data: Seq<Seq<u8>>) -> Done<()> {
        self.drain_vectored(advance(data, 0))
    }
}

/// Writing uses up answers, and does not end because a request was interrupted.
pub proof fn lemma_drain_progress(output: Output, data: Seq<u8>, lenient: bool, zero: Fault)
    ensures
        ({
            let drained = output.drain(data, lenient, zero);
            &&& drained.output.left() <= output.left()
            &&& drained.output.vectored == output.vectored
            &&& drained.rest.len() <= data.len()
            &&& drained.result is Ok <==> drained.rest.len() == 0
            &&& drained.result matches Err(error) ==> !error.interrupted()
        }),
    decreases output.left(),
{
    if data.len() > 0 && output.left() > 0 {
        let next = output.ask(WriteAsk::Write(data));
        lemma_drain_progress(next, data, lenient, zero);
        match forgiven(output.reply_within(data.len()), data.len()) {
            Ok(count) => {
                lemma_drain_progress(next, data.skip(count as int), lenient, zero);
            },
            Err(_) => {},
        }
    }
}

/// The first filled buffer is no longer than all of them.
pub proof fn lemma_first_filled(data: Seq<Seq<u8>>)
    ensures
        first_filled(data) matches Some(first) ==> 0 < first.len() <= data.flatten().len(),
        first_filled(data) is None ==> data.flatten().len() == 0,
    decreases data.len(),
{
    if data.len() > 0 && data[0].len() == 0 {
        lemma_first_filled(data.drop_first());
    }
}

/// There are no more buffers with lines than buffers.
pub proof fn lemma_through_last_line(data: Seq<Seq<u8>>)
    ensures
        through_last_line(data) <= data.len(),
    decreases data.len(),
{
    if data.len() > 0 {
        lemma_through_last_line(data.drop_last());
    }
}

/// A write takes no more bytes than there are, and uses up an answer where it was interrupted.
pub proof fn lemma_write_progress(writer: Writer, data: Seq<u8>)
    ensures
        ({
            let done = writer.write(data);
            &&& done.writer.output.left() <= writer.output.left()
            &&& match done.result {
                Ok(count) => count <= data.len(),
                Err(error) => error.interrupted() ==> done.writer.output.left()
                    < writer.output.left(),
            }
        }),
{
    lemma_drain_progress(writer.output, writer.buffered, true, Fault::WriteBuffered);
    lemma_through_last(data, NEWLINE);
    let flushed = writer.flush_buf().writer;
    lemma_drain_progress(flushed.output, flushed.buffered, true, Fault::WriteBuffered);
    let lines = through_last(data, NEWLINE);
    if lines > 0 {
        let sent = flushed.direct(data.take(lines as int));
        if sent.result is Ok {
            let count = sent.result->Ok_0;
            if count < lines && lines - count > writer.capacity {
                let fitting = data.subrange(count as int, (count + writer.capacity) as int);
                lemma_through_last(fitting, NEWLINE);
            }
        }
    }
}

/// As [`lemma_write_progress`], for several buffers.
pub proof fn lemma_write_vectored_progress(writer: Writer, data: Seq<Seq<u8>>)
    ensures
        ({
            let done = writer.write_vectored(data);
            &&& done.writer.output.left() <= writer.output.left()
            &&& match done.result {
                Ok(count) => count <= data.flatten().len(),
                Err(error) => error.interrupted() ==> done.writer.output.left()
                    < writer.output.left(),
            }
        }),
{
    if !writer.output.vectored {
        lemma_first_filled(data);
        if first_filled(data) is Some {
            lemma_write_progress(writer, first_filled(data)->0);
        }
    } else {
        lemma_through_last_line(data);
        lemma_flatten_prefix(data, through_last_line(data) as int);
        lemma_drain_progress(writer.output, writer.buffered, true, Fault::WriteBuffered);
        let flushed = writer.flush_buf().writer;
        lemma_drain_progress(flushed.output, flushed.buffered, true, Fault::WriteBuffered);
    }
}

/// Finds the first buffer that is not empty.
fn find_filled<'a>(bufs: &[&'a [u8]]) -> (found: Option<&'a [u8]>)
    ensures
        match found {
            Some(first) => first_filled(slices(bufs@)) == Some(first@),
            None => first_filled(slices(bufs@)) is None,
        },
{
    let ghost data = slices(bufs@);
    let mut at: usize = 0;
    assert(data.skip(0) =~= data);
    while at < bufs.len()
        invariant
            at <= bufs@.len(),
            data == slices(bufs@),
            first_filled(data.skip(at as int)) == first_filled(data),
        decreases bufs@.len() - at,
    {
        if bufs[at].len() > 0 {
            return Some(bufs[at]);
        }
        assert(data.skip(at as int).drop_first() =~= data.skip(at + 1));
        at = at + 1;
    }
    None
}

/// Finds the last buffer that holds the end of a line: how many buffers there are up to and with
/// it.
fn find_last_line(bufs: &[&[u8]]) -> (count: usize)
    ensures
        count == through_last_line(slices(bufs@)),
{
    let ghost data = slices(bufs@);
    let mut count: usize = bufs.len();
    assert(data.take(count as int) =~= data);
    while count > 0
        invariant
            count <= bufs@.len(),
            data == slices(bufs@),
            through_last_line(data.take(count as int)) == through_last_line(data),
        decreases count,
    {
        let last = bufs[count - 1];
        assert(data.take(count as int).last() == last@);
        if find_last(last, NEWLINE) > 0 {
            return count;
        }
        assert(data.take(count as int).drop_last() =~= data.take(count - 1));
        count = count - 1;
    }
    count
}

impl LineWriter {
    /// The buffer holds no more than fits in it, and no complete line with the start of the next.
    pub open spec fn wf(&self) -> bool {
        self@.fits() && self@.ends_lines()
    }

    /// A writer with an empty buffer of the usual size.
    pub fn new(inner: StdoutRaw) -> (writer: LineWriter)
        ensures
            writer.wf(),
            writer@ == (Writer {
                output: inner@,
                buffered: Seq::empty(),
                capacity: LINE_BUFFER as nat,
            }),
    {
        LineWriter::with_capacity(LINE_BUFFER, inner)
    }

    /// A writer with an empty buffer of the size `capacity`.
    pub fn with_capacity(capacity: usize, inner: StdoutRaw) -> (writer: LineWriter)
        ensures
            writer.wf(),
            writer@ == (Writer {
                output: inner@,
                buffered: Seq::empty(),
                capacity: capacity as nat,
            }),
    {
        LineWriter { inner, buf: Vec::new(), capacity }
    }

    /// The raw handle behind the buffer.
    pub fn get_mut(&mut self) -> (inner: &mut StdoutRaw)
        requires
            old(self).wf(),
        ensures
            inner@ == old(self)@.output,
            final(self).wf(),
            final(self)@ == (Writer { output: final(inner)@, ..old(self)@ }),
    {
        &mut self.inner
    }

    /// The raw handle behind the buffer, to look at.
    pub fn get_ref(&self) -> (inner: &StdoutRaw)
        ensures
            inner@ == self@.output,
    {
        &self.inner
    }

    /// Gives up the buffer: what is in it is passed on, as far as the host takes it, and what it
    /// does not take is lost.
    pub fn into_raw(self) -> (inner: StdoutRaw)
        requires
            self.wf(),
        ensures
            inner@ == self@.flush_buf().writer.output,
    {
        let mut writer = self;
        let _ = writer.flush_buf();
        writer.inner
    }

    /// The room in the buffer.
    fn spare_capacity(&self) -> (room: usize)
        requires
            self@.fits(),
        ensures
            room == self@.spare(),
    {
        self.capacity - self.buf.len()
    }

    /// Passes on what is in the buffer.
    pub fn flush_buf(&mut self) -> (result: Result<(), Error>)
        requires
            old(self)@.fits(),
        ensures
            final(self)@.fits(),
            old(self).wf() ==> final(self).wf(),
            ({
                let done = old(self)@.flush_buf();
                &&& final(self)@ == done.writer
                &&& result == done.result
            }),
    {
        proof {
            if self.wf() {
                lemma_flush_buf_ends_lines(self@);
            }
        }
        let ghost whole = old(self)@.output.drain(old(self)@.buffered, true, Fault::WriteBuffered);
        let mut written: usize = 0;
        let mut result: Result<(), Error> = Ok(());
        assert(self.buf@.skip(0) =~= self.buf@);
        while written < self.buf.len() && result.is_ok()
            invariant
                written <= self.buf@.len() <= self.capacity,
                self.buf == old(self).buf,
                self.capacity == old(self).capacity,
                whole == old(self)@.output.drain(
                    old(self)@.buffered,
                    true,
                    Fault::WriteBuffered,
                ),
                match result {
                    Ok(unit) => unit == () && whole == self.inner@.drain(
                        self.buf@.skip(written as int),
                        true,
                        Fault::WriteBuffered,
                    ),
                    Err(_) => {
                        &&& whole.output == self.inner@
                        &&& whole.rest == self.buf@.skip(written as int)
                        &&& whole.result == result
                    },
                },
            decreases
                    (if result is Ok {
                        1int
                    } else {
                        0
                    }),
                    self.inner@.left(),
                    self.buf@.len() - written,
        {
            let part = vstd::slice::slice_subrange(self.buf.as_slice(), written, self.buf.len());
            assert(part@ =~= self.buf@.skip(written as int));
            match self.inner.write(part) {
                Ok(count) => {
                    if count == 0 {
                        result = Err(Error::Fault(Fault::WriteBuffered));
                    } else {
                        assert(part@.skip(count as int) =~= self.buf@.skip(written + count));
                        written = written + count;
                    }
                },
                Err(error) => {
                    if !error.is_interrupted() {
                        result = Err(error);
                    }
                },
            }
        }
        let rest = vstd::slice::slice_subrange(self.buf.as_slice(), written, self.buf.len());
        assert(rest@ =~= self.buf@.skip(written as int));
        self.buf = vstd::slice::slice_to_vec(rest);
        result
    }

    /// Passes on what is in the buffer if it ends with the end of a line.
    fn flush_if_completed_line(&mut self) -> (result: Result<(), Error>)
        requires
            old(self)@.fits(),
        ensures
            final(self)@.fits(),
            ({
                let done = old(self)@.flush_if_completed_line();
                &&& final(self)@ == done.writer
                &&& result == done.result
            }),
    {
        if self.buf.len() > 0 && self.buf[self.buf.len() - 1] == NEWLINE {
            self.flush_buf()
        } else {
            Ok(())
        }
    }

    /// Passes on what is in the buffer if `len` more bytes do not fit beside it.
    fn make_room(&mut self, len: usize) -> (result: Result<(), Error>)
        requires
            old(self)@.fits(),
        ensures
            final(self)@.fits(),
            ({
                let done = old(self)@.make_room(len as nat);
                &&& final(self)@ == done.writer
                &&& result == done.result
                &&& result is Ok ==> final(self)@.buffered.len() + len <= final(self)@.capacity
                    || len >= final(self)@.capacity
            }),
    {
        proof {
            lemma_drain_progress(self@.output, self@.buffered, true, Fault::WriteBuffered);
        }
        if len > self.spare_capacity() {
            self.flush_buf()
        } else {
            Ok(())
        }
    }

    /// Buffers `data`, or passes it on where the buffer is too small for it.
    fn write_buffered(&mut self, data: &[u8]) -> (result: Result<usize, Error>)
        requires
            old(self)@.fits(),
        ensures
            final(self)@.fits(),
            ({
                let done = old(self)@.write_buffered(data@);
                &&& final(self)@ == done.writer
                &&& counted(result) == done.result
            }),
    {
        match self.make_room(data.len()) {
            Err(error) => Err(error),
            Ok(()) => {
                if data.len() >= self.capacity {
                    self.inner.write(data)
                } else {
                    let ghost had = self.buf@;
                    self.buf.extend_from_slice(data);
                    assert(self.buf@ =~= had + data@);
                    Ok(data.len())
                }
            },
        }
    }

    /// Buffers all of `data`, or passes it on where the buffer is too small for it.
    fn write_all_buffered(&mut self, data: &[u8]) -> (result: Result<(), Error>)
        requires
            old(self)@.fits(),
        ensures
            final(self)@.fits(),
            ({
                let done = old(self)@.write_all_buffered(data@);
                &&& final(self)@ == done.writer
                &&& result == done.result
            }),
    {
        match self.make_room(data.len()) {
            Err(error) => Err(error),
            Ok(()) => {
                if data.len() >= self.capacity {
                    self.inner.write_all(data)
                } else {
                    let ghost had = self.buf@;
                    self.buf.extend_from_slice(data);
                    assert(self.buf@ =~= had + data@);
                    Ok(())
                }
            },
        }
    }

    /// Buffers as much of `data` as fits, and returns how much that is.
    fn fit(&mut self, data: &[u8]) -> (count: usize)
        requires
            old(self)@.fits(),
        ensures
            final(self)@.fits(),
            final(self)@ == old(self)@.fit(data@),
            count == least(old(self)@.spare(), data@.len()),
    {
        let room: usize = self.spare_capacity();
        let count: usize = if room <= data.len() {
            room
        } else {
            data.len()
        };
        let part = vstd::slice::slice_subrange(data, 0, count);
        let ghost had = self.buf@;
        self.buf.extend_from_slice(part);
        assert(self.buf@ =~= had + data@.take(count as int));
        count
    }

    /// Writes `buf`: the lines in it are passed on at one request, and the rest is buffered.
    pub fn write(&mut self, buf: &[u8]) -> (result: Result<usize, Error>)
        requires
            old(self).wf(),
        ensures
            final(self).wf(),
            ({
                let done = old(self)@.write(buf@);
                &&& final(self)@ == done.writer
                &&& counted(result) == done.result
            }),
    {
        let lines: usize = find_last(buf, NEWLINE);
        proof {
            lemma_write_ends_lines(self@, buf@);
            lemma_through_last(buf@, NEWLINE);
            lemma_drain_progress(self@.output, self@.buffered, true, Fault::WriteBuffered);
        }
        if lines == 0 {
            match self.flush_if_completed_line() {
                Ok(()) => {},
                Err(error) => {
                    return Err(error);
                },
            }
            return self.write_buffered(buf);
        }
        match self.flush_buf() {
            Ok(()) => {},
            Err(error) => {
                return Err(error);
            },
        }
        let ghost ready = self@;
        let head = vstd::slice::slice_subrange(buf, 0, lines);
        assert(head@ =~= buf@.take(lines as int));
        let flushed: usize = match self.inner.write(head) {
            Ok(count) => count,
            Err(error) => {
                return Err(error);
            },
        };
        assert(self@ == ready.direct(head@).writer);
        if flushed == 0 {
            return Ok(0);
        }
        let tail = if flushed >= lines {
            vstd::slice::slice_subrange(buf, flushed, buf.len())
        } else if lines - flushed <= self.capacity {
            vstd::slice::slice_subrange(buf, flushed, lines)
        } else {
            let fitting = vstd::slice::slice_subrange(buf, flushed, flushed + self.capacity);
            let last: usize = find_last(fitting, NEWLINE);
            proof {
                lemma_through_last(fitting@, NEWLINE);
            }
            if last > 0 {
                let whole = vstd::slice::slice_subrange(fitting, 0, last);
                assert(whole@ =~= fitting@.take(last as int));
                whole
            } else {
                fitting
            }
        };
        assert(tail@ =~= self@.tail_to_buffer(buf@, lines as nat, flushed as nat));
        let buffered: usize = self.fit(tail);
        Ok(flushed + buffered)
    }

    /// Buffers what several buffers hold, or passes it on where the buffer is too small for it.
    fn write_vectored_buffered(&mut self, bufs: &[&[u8]]) -> (result: Result<usize, Error>)
        requires
            old(self)@.fits(),
            slices(bufs@).flatten().len() <= usize::MAX,
        ensures
            final(self)@.fits(),
            ({
                let done = old(self)@.write_vectored_buffered(slices(bufs@));
                &&& final(self)@ == done.writer
                &&& counted(result) == done.result
            }),
    {
        let len: usize = total(bufs);
        match self.make_room(len) {
            Err(error) => Err(error),
            Ok(()) => {
                if len >= self.capacity {
                    self.inner.write_vectored(bufs)
                } else {
                    let count: usize = self.fit_all(bufs, 0);
                    proof {
                        let all = slices(bufs@);
                        assert(all.skip(0) =~= all);
                        assert(all.flatten().take(len as int) =~= all.flatten());
                        assert(count == len);
                    }
                    Ok(count)
                }
            },
        }
    }

    /// Buffers as much as fits of what the buffers from `start` on hold, and returns how much
    /// that is.
    fn fit_all(&mut self, bufs: &[&[u8]], start: usize) -> (count: usize)
        requires
            old(self)@.fits(),
            start <= bufs@.len(),
        ensures
            final(self)@.fits(),
            ({
                let data = slices(bufs@).skip(start as int).flatten();
                &&& final(self)@ == old(self)@.fit(data)
                &&& count == least(old(self)@.spare(), data.len())
            }),
    {
        let ghost all = slices(bufs@).skip(start as int);
        let ghost data = all.flatten();
        let mut count: usize = 0;
        let mut at: usize = start;
        assert(all.take(0).flatten() =~= Seq::empty());
        assert(data.take(0) =~= Seq::empty());
        assert(self@.buffered + Seq::<u8>::empty() =~= self@.buffered);
        while at < bufs.len()
            invariant
                self@.fits(),
                start <= at <= bufs@.len(),
                all == slices(bufs@).skip(start as int),
                data == all.flatten(),
                count == least(old(self)@.spare(), all.take(at - start).flatten().len()),
                self@ == old(self)@.push(data.take(count as int)),
                count <= old(self)@.spare(),
                old(self)@.buffered.len() <= old(self)@.capacity,
            decreases bufs@.len() - at,
        {
            proof {
                lemma_flatten_take(all, at - start);
                lemma_flatten_prefix(all, at - start);
                lemma_flatten_prefix(all, at - start + 1);
            }
            let ghost had = self@;
            if bufs[at].len() > 0 {
                let more: usize = self.fit(bufs[at]);
                if more == 0 {
                    assert(self@ =~= had);
                    return count;
                }
                proof {
                    let next = all[at - start];
                    assert(next == bufs@[at as int]@);
                    assert(data.take(count + more) =~= data.take(count as int) + next.take(
                        more as int,
                    ));
                    assert(self@.buffered =~= old(self)@.buffered + data.take(count + more));
                }
                count = count + more;
            }
            at = at + 1;
        }
        assert(all.take(at - start) =~= all);
        count
    }

    /// Writes what several buffers hold: those with lines in them are passed on at one request,
    /// and the others are buffered.
    pub fn write_vectored(&mut self, bufs: &[&[u8]]) -> (result: Result<usize, Error>)
        requires
            old(self).wf(),
            slices(bufs@).flatten().len() <= usize::MAX,
        ensures
            final(self).wf(),
            ({
                let done = old(self)@.write_vectored(slices(bufs@));
                &&& final(self)@ == done.writer
                &&& counted(result) == done.result
            }),
    {
        proof {
            lemma_write_vectored_ends_lines(self@, slices(bufs@));
        }
        let ghost data = slices(bufs@);
        if !self.is_write_vectored() {
            return match find_filled(bufs) {
                Some(first) => self.write(first),
                None => Ok(0),
            };
        }
        let lines: usize = find_last_line(bufs);
        proof {
            lemma_through_last_line(data);
            lemma_flatten_prefix(data, lines as int);
            lemma_drain_progress(self@.output, self@.buffered, true, Fault::WriteBuffered);
        }
        if lines == 0 {
            match self.flush_if_completed_line() {
                Ok(()) => {},
                Err(error) => {
                    return Err(error);
                },
            }
            return self.write_vectored_buffered(bufs);
        }
        match self.flush_buf() {
            Ok(()) => {},
            Err(error) => {
                return Err(error);
            },
        }
        let ghost ready = self@;
        let head = vstd::slice::slice_subrange(bufs, 0, lines);
        assert(slices(head@) =~= data.take(lines as int));
        let flushed: usize = match self.inner.write_vectored(head) {
            Ok(count) => count,
            Err(error) => {
                return Err(error);
            },
        };
        assert(self@ == ready.direct_vectored(slices(head@)).writer);
        if flushed == 0 || flushed < total(head) {
            return Ok(flushed);
        }
        let buffered: usize = self.fit_all(bufs, lines);
        Ok(flushed + buffered)
    }

    /// Whether the stream can take several buffers at once.
    pub fn is_write_vectored(&self) -> (yes: bool)
        ensures
            yes == self@.output.vectored,
    {
        self.inner.is_write_vectored()
    }

    /// Writes all that several buffers hold.
    pub fn write_all_vectored(&mut self, bufs: &[&[u8]]) -> (result: Result<(), Error>)
        requires
            old(self).wf(),
            slices(bufs@).flatten().len() <= usize::MAX,
        ensures
            final(self).wf(),
            ({
                let done = old(self)@.write_all_vectored(slices(bufs@));
                &&& final(self)@ == done.writer
                &&& result == done.result
            }),
    {
        let ghost whole = old(self)@.write_all_vectored(slices(bufs@));
        proof {
            lemma_advance(slices(bufs@), 0);
        }
        let mut left = advance_slices(bufs, 0);
        while left.len() > 0
            invariant
                self.wf(),
                whole == old(self)@.write_all_vectored(slices(bufs@)),
                whole == self@.drain_vectored(slices(left@)),
                slices(left@).flatten().len() <= usize::MAX,
            decreases self@.output.left(), slices(left@).flatten().len(),
        {
            proof {
                lemma_write_vectored_progress(self@, slices(left@));
            }
            match self.write_vectored(left.as_slice()) {
                Ok(count) => {
                    if count == 0 {
                        return Err(Error::Fault(Fault::WriteBuffer));
                    }
                    proof {
                        lemma_advance(slices(left@), count as nat);
                    }
                    left = advance_slices(left.as_slice(), count);
                },
                Err(error) => {
                    if !error.is_interrupted() {
                        return Err(error);
                    }
                },
            }
        }
        Ok(())
    }

    /// Passes on what is in the buffer, and flushes the stream.
    pub fn flush(&mut self) -> (result: Result<(), Error>)
        requires
            old(self).wf(),
        ensures
            final(self).wf(),
            ({
                let done = old(self)@.flush();
                &&& final(self)@ == done.writer
                &&& result == done.result
            }),
    {
        match self.flush_buf() {
            Ok(()) => self.inner.flush(),
            Err(error) => Err(error),
        }
    }

    /// Writes all of `buf`: the lines in it are passed on, and the rest is buffered.
    pub fn write_all(&mut self, buf: &[u8]) -> (result: Result<(), Error>)
        requires
            old(self).wf(),
        ensures
            final(self).wf(),
            ({
                let done = old(self)@.write_all(buf@);
                &&& final(self)@ == done.writer
                &&& result == done.result
            }),
    {
        let lines: usize = find_last(buf, NEWLINE);
        proof {
            lemma_write_all_ends_lines(self@, buf@);
            lemma_through_last(buf@, NEWLINE);
        }
        if lines == 0 {
            assert(buf@.skip(0) =~= buf@);
            return match self.flush_if_completed_line() {
                Ok(()) => self.write_all_buffered(buf),
                Err(error) => Err(error),
            };
        }
        let head = vstd::slice::slice_subrange(buf, 0, lines);
        let tail = vstd::slice::slice_subrange(buf, lines, buf.len());
        assert(head@ =~= buf@.take(lines as int));
        assert(tail@ =~= buf@.skip(lines as int));
        let result = if self.buf.len() == 0 {
            self.inner.write_all(head)
        } else {
            match self.write_all_buffered(head) {
                Ok(()) => self.flush_buf(),
                Err(error) => Err(error),
            }
        };
        match result {
            Ok(()) => self.write_all_buffered(tail),
            Err(error) => Err(error),
        }
    }

    /// Writes formatted output.
    pub fn write_fmt(&mut self, args: &Arguments) -> (result: Result<(), Error>)
        requires
            old(self).wf(),
        ensures
            final(self).wf(),
            ({
                let done = old(self)@.write_pieces(args@.pieces);
                &&& final(self)@ == done.writer
                &&& result == format_result(done.result, args@.failed)
            }),
    {
        let ghost whole = old(self)@.write_pieces(args@.pieces);
        let mut at: usize = 0;
        assert(args@.pieces.skip(0) =~= args@.pieces);
        while at < args.pieces.len()
            invariant
                self.wf(),
                at <= args.pieces@.len(),
                whole == old(self)@.write_pieces(args@.pieces),
                whole == self@.write_pieces(args@.pieces.skip(at as int)),
            decreases args.pieces@.len() - at,
        {
            let ghost rest = args@.pieces.skip(at as int);
            assert(rest.drop_first() =~= args@.pieces.skip(at + 1));
            match self.write_all(args.pieces[at].as_str().as_bytes()) {
                Ok(()) => {},
                Err(error) => {
                    return Err(error);
                },
            }
            at = at + 1;
        }
        if args.failed {
            Err(Error::Fault(Fault::Formatter))
        } else {
            Ok(())
        }
    }
}

} // verus!
