//! Buffered input.
use vstd::prelude::*;

use crate::bytes::{
    contents, copy_into, counted, least, lengths, overwrite, scatter, total_len, NEWLINE,
};
use crate::error::{forgiven, Error, Fault};
use crate::raw::StdinRaw;
use crate::scan::{find_first, lemma_through_first, through_first};
use crate::source::{count_of, data_of, lemma_read_to_end_count, Input, ReadAsk};
use crate::text::{append_to_string, text_of, text_result};

verus! {

/// A raw handle to standard input with a buffer: input is asked for in pieces as large as the
/// buffer, and handed out as it is wanted.
#[derive(Clone, Debug)]
pub struct BufReader {
    inner: StdinRaw,
    buf: Vec<u8>,
    pos: usize,
    capacity: usize,
}

/// The contents of a [`BufReader`].
#[verifier::ext_equal]
pub struct Reader {
    /// The host's end of the stream.
    pub input: Input,
    /// The bytes in the buffer that have not been handed out.
    pub unread: Seq<u8>,
    /// The size of the buffer.
    pub capacity: nat,
}

impl View for BufReader {
    type V = Reader;

    closed spec fn view(&self) -> Reader {
        Reader {
            input: self.inner@,
            unread: self.buf@.skip(self.pos as int),
            capacity: self.capacity as nat,
        }
    }
}

/// What an operation on a [`Reader`] does: the reader after it, the bytes that it hands out, and
/// what it returns.
#[verifier::ext_equal]
pub struct Taken {
    pub reader: Reader,
    pub data: Seq<u8>,
    pub result: Result<nat, Error>,
}

/// `taken`, with `data` before what it hands out.
pub open spec fn after(data: Seq<u8>, taken: Taken) -> Taken {
    Taken {
        reader: taken.reader,
        data: data + taken.data,
        result: match taken.result {
            Ok(count) => Ok(data.len() + count),
            Err(error) => Err(error),
        },
    }
}

impl Reader {
    /// The reader after one request for as much as the buffer holds, and whether that succeeded.
    pub open spec fn refill(self) -> (Reader, Result<(), Error>) {
        let got = forgiven(self.input.reply_within(self.capacity), Seq::empty());
        (
            Reader { input: self.input.after_read(self.capacity), unread: data_of(got), ..self },
            match got {
                Ok(_) => Ok(()),
                Err(error) => Err(error),
            },
        )
    }

    /// The reader with something in its buffer, unless the input has ended or the request for
    /// more failed.
    pub open spec fn fill(self) -> (Reader, Result<(), Error>) {
        if self.unread.len() > 0 {
            (self, Ok(()))
        } else {
            self.refill()
        }
    }

    /// The reader with `count` bytes of its buffer handed out, or all of them if it has fewer.
    pub open spec fn consume(self, count: nat) -> Reader {
        Reader { unread: self.unread.skip(least(count, self.unread.len()) as int), ..self }
    }

    /// Hands out at most `len` bytes from the buffer, after filling it where it is empty.
    pub open spec fn read_buffered(self, len: nat) -> Taken {
        let (filled, result) = self.fill();
        match result {
            Ok(_) => {
                let count = least(len, filled.unread.len());
                Taken {
                    reader: filled.consume(count),
                    data: filled.unread.take(count as int),
                    result: Ok(count),
                }
            },
            Err(error) => Taken { reader: filled, data: Seq::empty(), result: Err(error) },
        }
    }

    /// Hands out at most `len` bytes: straight from the host, if nothing is buffered and the
    /// request is at least as large as the buffer.
    pub open spec fn read(self, len: nat) -> Taken {
        if self.unread.len() == 0 && len >= self.capacity {
            let got = forgiven(self.input.reply_within(len), Seq::empty());
            Taken {
                reader: Reader { input: self.input.after_read(len), ..self },
                data: data_of(got),
                result: count_of(got),
            }
        } else {
            self.read_buffered(len)
        }
    }

    /// Hands out bytes for buffers of the lengths `lens`, which are `len` together.
    pub open spec fn read_vectored(self, lens: Seq<nat>, len: nat) -> Taken {
        if self.unread.len() == 0 && len >= self.capacity {
            let got = forgiven(self.input.reply_within(len), Seq::empty());
            Taken {
                reader: Reader { input: self.input.ask(ReadAsk::ReadVectored(lens)), ..self },
                data: data_of(got),
                result: count_of(got),
            }
        } else {
            self.read_buffered(len)
        }
    }

    /// Hands out `len` bytes, no fewer: reading is repeated until they are there. An interrupted
    /// request is repeated, and the end of the input is an error.
    pub open spec fn read_exact(self, len: nat) -> Taken
        decreases self.input.left(), len,
    {
        if len == 0 {
            Taken { reader: self, data: Seq::empty(), result: Ok(0) }
        } else {
            let part = self.read(len);
            match part.result {
                Ok(count) => if count == 0 {
                    Taken {
                        reader: part.reader,
                        data: part.data,
                        result: Err(Error::Fault(Fault::FillBuffer)),
                    }
                } else {
                    after(part.data, part.reader.read_exact((len - count) as nat))
                },
                Err(error) => if error.interrupted() {
                    part.reader.read_exact(len)
                } else {
                    part
                },
            }
        }
    }

    /// Hands out all the input that is left.
    pub open spec fn read_to_end(self) -> Taken {
        let rest = self.input.read_to_end();
        after(
            self.unread,
            Taken {
                reader: Reader { input: rest.input, unread: Seq::empty(), ..self },
                data: rest.data,
                result: forgiven(rest.result, 0),
            },
        )
    }

    /// Hands out the input up to and with the first `byte`, or all of it where there is none. An
    /// interrupted request is repeated, any other error ends the reading.
    pub open spec fn read_until(self, byte: u8) -> Taken
        decreases self.input.left(), self.unread.len(),
    {
        let (filled, result) = self.fill();
        match result {
            Ok(_) => match through_first(filled.unread, byte) {
                Some(len) => Taken {
                    reader: filled.consume(len),
                    data: filled.unread.take(len as int),
                    result: Ok(len),
                },
                None => if filled.unread.len() == 0 {
                    Taken { reader: filled, data: Seq::empty(), result: Ok(0) }
                } else {
                    after(
                        filled.unread,
                        filled.consume(filled.unread.len()).read_until(byte),
                    )
                },
            },
            Err(error) => if error.interrupted() {
                filled.read_until(byte)
            } else {
                Taken { reader: filled, data: Seq::empty(), result: Err(error) }
            },
        }
    }
}

impl BufReader {
    /// The buffer holds what it can hold, and no more was handed out than it held.
    pub closed spec fn wf(&self) -> bool {
        &&& self.pos <= self.buf@.len()
        &&& self.buf@.len() <= self.capacity
    }

    /// The buffer of a reader that is in order holds no more than fits in it.
    pub proof fn lemma_holds(&self)
        requires
            self.wf(),
        ensures
            self@.unread.len() <= self@.capacity,
    {
    }

    /// A reader with an empty buffer of the size `capacity`.
    pub fn with_capacity(capacity: usize, inner: StdinRaw) -> (reader: BufReader)
        ensures
            reader.wf(),
            reader@ == (Reader {
                input: inner@,
                unread: Seq::empty(),
                capacity: capacity as nat,
            }),
    {
        let reader = BufReader { inner, buf: Vec::new(), pos: 0, capacity };
        assert(reader@.unread =~= Seq::empty());
        reader
    }

    /// The raw handle behind the buffer.
    pub fn get_mut(&mut self) -> (inner: &mut StdinRaw)
        requires
            old(self).wf(),
        ensures
            inner@ == old(self)@.input,
            final(self).wf(),
            final(self)@ == (Reader { input: final(inner)@, ..old(self)@ }),
    {
        &mut self.inner
    }

    /// The raw handle behind the buffer, to look at.
    pub fn get_ref(&self) -> (inner: &StdinRaw)
        ensures
            inner@ == self@.input,
    {
        &self.inner
    }

    /// The bytes in the buffer that have not been handed out.
    pub fn buffer(&self) -> (unread: &[u8])
        requires
            self.wf(),
        ensures
            unread@ == self@.unread,
    {
        let unread = vstd::slice::slice_subrange(self.buf.as_slice(), self.pos, self.buf.len());
        assert(unread@ =~= self@.unread);
        unread
    }

    /// Fills the buffer where it is empty, and lends what is in it.
    pub fn fill_buf(&mut self) -> (result: Result<&[u8], Error>)
        requires
            old(self).wf(),
        ensures
            final(self).wf(),
            final(self)@ == old(self)@.fill().0,
            match result {
                Ok(unread) => old(self)@.fill().1 is Ok && unread@ == old(self)@.fill().0.unread,
                Err(error) => old(self)@.fill().1 == Err::<(), Error>(error),
            },
    {
        if self.pos >= self.buf.len() {
            let mut fresh: Vec<u8> = vec![0; self.capacity];
            let result = self.inner.read(fresh.as_mut_slice());
            self.pos = 0;
            match result {
                Ok(count) => {
                    fresh.truncate(count);
                    self.buf = fresh;
                    assert(self@ =~= old(self)@.fill().0);
                },
                Err(error) => {
                    self.buf = Vec::new();
                    assert(self@ =~= old(self)@.fill().0);
                    return Err(error);
                },
            }
        }
        Ok(self.buffer())
    }

    /// Marks `amt` bytes of the buffer as handed out.
    pub fn consume(&mut self, amt: usize)
        requires
            old(self).wf(),
        ensures
            final(self).wf(),
            final(self)@ == old(self)@.consume(amt as nat),
    {
        if amt <= self.buf.len() - self.pos {
            self.pos = self.pos + amt;
        } else {
            self.pos = self.buf.len();
        }
        assert(self@.unread =~= old(self)@.consume(amt as nat).unread);
    }

    /// Reads into `buf`.
    pub fn read(&mut self, buf: &mut [u8]) -> (result: Result<usize, Error>)
        requires
            old(self).wf(),
        ensures
            final(self).wf(),
            ({
                let taken = old(self)@.read(old(buf)@.len());
                &&& final(self)@ == taken.reader
                &&& final(buf)@ == overwrite(old(buf)@, taken.data)
                &&& counted(result) == taken.result
            }),
    {
        assert(overwrite(old(buf)@, Seq::empty()) =~= old(buf)@);
        if self.pos == self.buf.len() && buf.len() >= self.capacity {
            self.buf = Vec::new();
            self.pos = 0;
            let result = self.inner.read(buf);
            assert(self@ =~= old(self)@.read(old(buf)@.len()).reader);
            return result;
        }
        let count: usize = match self.fill_buf() {
            Ok(unread) => {
                let count: usize = if buf.len() <= unread.len() {
                    buf.len()
                } else {
                    unread.len()
                };
                let part = vstd::slice::slice_subrange(unread, 0, count);
                assert(part@ =~= unread@.take(count as int));
                copy_into(buf, part);
                count
            },
            Err(error) => {
                return Err(error);
            },
        };
        self.consume(count);
        Ok(count)
    }

    /// Reads into several buffers, each in its turn.
    pub fn read_vectored(&mut self, bufs: &mut Vec<Vec<u8>>) -> (result: Result<usize, Error>)
        requires
            old(self).wf(),
            contents(old(bufs)@).flatten().len() <= usize::MAX,
        ensures
            final(self).wf(),
            ({
                let all = contents(old(bufs)@);
                let taken = old(self)@.read_vectored(lengths(all), all.flatten().len());
                &&& final(self)@ == taken.reader
                &&& lengths(contents(final(bufs)@)) == lengths(all)
                &&& contents(final(bufs)@).flatten() == overwrite(all.flatten(), taken.data)
                &&& counted(result) == taken.result
            }),
    {
        let ghost all = contents(old(bufs)@).flatten();
        assert(overwrite(all, Seq::empty()) =~= all);
        let len: usize = total_len(bufs);
        if self.pos == self.buf.len() && len >= self.capacity {
            self.buf = Vec::new();
            self.pos = 0;
            let result = self.inner.read_vectored(bufs);
            assert(self@ =~= old(self)@.read_vectored(
                lengths(contents(old(bufs)@)),
                all.len(),
            ).reader);
            return result;
        }
        let count: usize = match self.fill_buf() {
            Ok(unread) => scatter(bufs, unread),
            Err(error) => {
                return Err(error);
            },
        };
        self.consume(count);
        Ok(count)
    }

    /// Whether the stream can fill several buffers at once.
    pub fn is_read_vectored(&self) -> (yes: bool)
        ensures
            yes == self@.input.vectored,
    {
        self.inner.is_read_vectored()
    }

    /// Reads until `buf` is full.
    pub fn read_exact(&mut self, buf: &mut [u8]) -> (result: Result<(), Error>)
        requires
            old(self).wf(),
        ensures
            final(self).wf(),
            ({
                let taken = old(self)@.read_exact(old(buf)@.len());
                &&& final(self)@ == taken.reader
                &&& final(buf)@ == overwrite(old(buf)@, taken.data)
                &&& match result {
                    Ok(()) => taken.result == Ok::<nat, Error>(old(buf)@.len()),
                    Err(error) => taken.result == Err::<nat, Error>(error),
                }
            }),
    {
        let len: usize = buf.len();
        let ghost whole = old(self)@.read_exact(len as nat);
        let mut at: usize = 0;
        assert(overwrite(old(buf)@, Seq::empty()) =~= old(buf)@);
        assert(Seq::<u8>::empty() + whole.data =~= whole.data);
        while at < len
            invariant
                self.wf(),
                at <= len == buf@.len() == old(buf)@.len(),
                whole == old(self)@.read_exact(len as nat),
                buf@.skip(at as int) == old(buf)@.skip(at as int),
                whole == after(buf@.take(at as int), self@.read_exact((len - at) as nat)),
            decreases self@.input.left(), len - at,
        {
            let ghost before = self@;
            let ghost had = buf@;
            let (_, tail) = buf.split_at_mut(at);
            let result = self.read(tail);
            match result {
                Ok(count) => {
                    let ghost data = before.read((len - at) as nat).data;
                    assert(buf@ =~= had.take(at as int) + data + had.skip(at + count));
                    if count == 0 {
                        assert(buf@ =~= overwrite(old(buf)@, whole.data));
                        return Err(Error::Fault(Fault::FillBuffer));
                    }
                    proof {
                        let rest = self@.read_exact((len - at - count) as nat);
                        assert(buf@.take(at + count) =~= had.take(at as int) + data);
                        assert((had.take(at as int) + data) + rest.data =~= had.take(at as int) + (
                        data + rest.data));
                        assert(buf@.skip(at + count) =~= had.skip(at as int).skip(count as int));
                        assert(old(buf)@.skip(at as int).skip(count as int) =~= old(buf)@.skip(
                            at + count,
                        ));
                    }
                    at = at + count;
                },
                Err(error) => {
                    if !error.is_interrupted() {
                        assert(whole.data =~= buf@.take(at as int));
                        assert(buf@ =~= overwrite(old(buf)@, whole.data));
                        return Err(error);
                    }
                },
            }
        }
        assert(whole.data =~= buf@);
        Ok(())
    }

    /// Reads what is left of the stream, and adds it to `buf`.
    pub fn read_to_end(&mut self, buf: &mut Vec<u8>) -> (result: Result<usize, Error>)
        requires
            old(self).wf(),
        ensures
            final(self).wf(),
            ({
                let taken = old(self)@.read_to_end();
                &&& final(self)@ == taken.reader
                &&& final(buf)@ == old(buf)@ + taken.data
                &&& counted(result) == taken.result
            }),
    {
        let count: usize = self.buf.len() - self.pos;
        buf.extend_from_slice(self.buffer());
        self.buf = Vec::new();
        self.pos = 0;
        assert(buf@ =~= old(buf)@ + old(self)@.unread);
        let result = self.inner.read_to_end(buf);
        proof {
            let taken = old(self)@.read_to_end();
            assert(buf@ =~= old(buf)@ + taken.data);
            assert(self@ =~= taken.reader);
            lemma_read_to_end_count(old(self)@.input);
            assert(buf.len() == buf@.len());
        }
        match result {
            Ok(more) => Ok(count + more),
            Err(error) => Err(error),
        }
    }

    /// Reads what is left of the stream as text, and adds it to `buf`.
    pub fn read_to_string(&mut self, buf: &mut String) -> (result: Result<usize, Error>)
        requires
            old(self).wf(),
        ensures
            final(self).wf(),
            ({
                let taken = old(self)@.read_to_end();
                &&& final(self)@ == taken.reader
                &&& final(buf)@ == old(buf)@ + text_of(taken.data)
                &&& counted(result) == text_result(taken.data, taken.result)
            }),
    {
        let mut data: Vec<u8> = Vec::new();
        let result = self.read_to_end(&mut data);
        assert(data@ =~= old(self)@.read_to_end().data);
        append_to_string(buf, data.as_slice(), result)
    }

    /// Reads up to and with the first `byte`, and adds it to `buf`.
    pub fn read_until(&mut self, byte: u8, buf: &mut Vec<u8>) -> (result: Result<usize, Error>)
        requires
            old(self).wf(),
        ensures
            final(self).wf(),
            ({
                let taken = old(self)@.read_until(byte);
                &&& final(self)@ == taken.reader
                &&& final(buf)@ == old(buf)@ + taken.data
                &&& counted(result) == taken.result
            }),
    {
        let start: usize = buf.len();
        let ghost whole = old(self)@.read_until(byte);
        assert(Seq::<u8>::empty() + whole.data =~= whole.data);
        assert(buf@.skip(start as int) =~= Seq::empty());
        loop
            invariant
                self.wf(),
                start == old(buf)@.len() <= buf@.len(),
                buf@.take(start as int) == old(buf)@,
                whole == old(self)@.read_until(byte),
                whole == after(buf@.skip(start as int), self@.read_until(byte)),
            decreases self@.input.left(), self@.unread.len(),
        {
            let ghost before = self@;
            let ghost had = buf@;
            let ghost filled = self@.fill().0;
            let (done, used): (bool, usize) = match self.fill_buf() {
                Ok(unread) => {
                    proof {
                        lemma_through_first(unread@, byte);
                    }
                    match find_first(unread, byte) {
                        Some(len) => {
                            buf.extend_from_slice(vstd::slice::slice_subrange(unread, 0, len));
                            assert(buf@ =~= had + filled.unread.take(len as int));
                            (true, len)
                        },
                        None => {
                            buf.extend_from_slice(unread);
                            assert(buf@ =~= had + filled.unread);
                            (false, unread.len())
                        },
                    }
                },
                Err(error) => {
                    if error.is_interrupted() {
                        continue ;
                    }
                    assert(buf@ =~= old(buf)@ + whole.data);
                    return Err(error);
                },
            };
            self.consume(used);
            proof {
                let rest = self@.read_until(byte);
                assert(buf@.skip(start as int) =~= had.skip(start as int) + filled.unread.take(
                    used as int,
                ));
                assert(buf@.take(start as int) =~= old(buf)@);
                assert(filled.unread.take(filled.unread.len() as int) =~= filled.unread);
                assert((had.skip(start as int) + filled.unread) + rest.data =~= had.skip(
                    start as int,
                ) + (filled.unread + rest.data));
            }
            if done || used == 0 {
                assert(self@ =~= whole.reader);
                assert(buf@ =~= old(buf)@ + whole.data);
                return Ok(buf.len() - start);
            }
        }
    }

    /// Reads a line as text, with the byte that ends it, and adds it to `buf`.
    pub fn read_line(&mut self, buf: &mut String) -> (result: Result<usize, Error>)
        requires
            old(self).wf(),
        ensures
            final(self).wf(),
            ({
                let taken = old(self)@.read_until(NEWLINE);
                &&& final(self)@ == taken.reader
                &&& final(buf)@ == old(buf)@ + text_of(taken.data)
                &&& counted(result) == text_result(taken.data, taken.result)
            }),
    {
        let mut data: Vec<u8> = Vec::new();
        let result = self.read_until(NEWLINE, &mut data);
        assert(data@ =~= old(self)@.read_until(NEWLINE).data);
        append_to_string(buf, data.as_slice(), result)
    }
}

} // verus!
