//! The host's end of standard output and of standard error.
//!
//! As with [`Source`](crate::source::Source), a [`Sink`] keeps the requests that were made and
//! the answers that the host has given to them.
use vstd::prelude::*;

use crate::bytes::{
    advance, advance_slices, contents, copies, counted, least, slices, total_within,
};
use crate::error::{forgiven, Error, Fault};
use crate::format::Arguments;

verus! {

/// A request for output.
#[derive(Clone, Debug)]
pub enum WriteRequest {
    /// Write these bytes, or some of them from the start.
    Write(Vec<u8>),
    /// Write what these buffers hold, or some of it from the start.
    WriteVectored(Vec<Vec<u8>>),
    /// See to it that all that was written arrives.
    Flush,
}

/// What a [`WriteRequest`] asks for.
pub enum WriteAsk {
    Write(Seq<u8>),
    WriteVectored(Seq<Seq<u8>>),
    Flush,
}

impl View for WriteRequest {
    type V = WriteAsk;

    open spec fn view(&self) -> WriteAsk {
        match *self {
            WriteRequest::Write(data) => WriteAsk::Write(data@),
            WriteRequest::WriteVectored(data) => WriteAsk::WriteVectored(contents(data@)),
            WriteRequest::Flush => WriteAsk::Flush,
        }
    }
}

/// The host's end of an output stream: the answers that it has given, and what it was asked.
#[derive(Clone, Debug)]
pub struct Sink {
    /// The answers, in order: how many bytes were written. For a flush the number says nothing.
    pub answers: Vec<Result<usize, Error>>,
    /// The requests, in order. The answer to a request has the same index.
    pub asked: Vec<WriteRequest>,
    /// Whether the host can write several buffers at one request.
    pub vectored: bool,
}

/// The contents of a [`Sink`].
#[verifier::ext_equal]
pub struct Output {
    pub answers: Seq<Result<usize, Error>>,
    pub asked: Seq<WriteAsk>,
    pub vectored: bool,
}

impl View for Sink {
    type V = Output;

    open spec fn view(&self) -> Output {
        Output {
            answers: self.answers@,
            asked: self.asked@.map_values(|request: WriteRequest| request@),
            vectored: self.vectored,
        }
    }
}

/// What became of output: the host's end after it, the bytes that the host did not take, and what
/// was returned.
#[verifier::ext_equal]
pub struct Drained {
    pub output: Output,
    pub rest: Seq<u8>,
    pub result: Result<(), Error>,
}

/// What a formatting operation returns, once writing the pieces returned `result`.
pub open spec fn format_result(result: Result<(), Error>, failed: bool) -> Result<(), Error> {
    if result is Ok && failed {
        Err(Error::Fault(Fault::Formatter))
    } else {
        result
    }
}

impl Output {
    /// The number of answers that have not been used yet.
    pub open spec fn left(self) -> nat {
        if self.asked.len() <= self.answers.len() {
            (self.answers.len() - self.asked.len()) as nat
        } else {
            0
        }
    }

    /// The answer to the next request.
    pub open spec fn reply(self) -> Result<nat, Error> {
        if self.asked.len() < self.answers.len() {
            counted(self.answers[self.asked.len() as int])
        } else {
            Err(Error::Unanswered)
        }
    }

    /// The host's end after one more request.
    pub open spec fn ask(self, request: WriteAsk) -> Output {
        Output { asked: self.asked.push(request), ..self }
    }

    /// The answer to the next request, if it is to write `len` bytes: more than these cannot have
    /// been written.
    pub open spec fn reply_within(self, len: nat) -> Result<nat, Error> {
        match self.reply() {
            Ok(count) => Ok(least(count, len)),
            Err(error) => Err(error),
        }
    }

    /// The answer to the next request, if it is to flush.
    pub open spec fn reply_flush(self) -> Result<(), Error> {
        match self.reply() {
            Ok(_) => Ok(()),
            Err(error) => Err(error),
        }
    }

    /// Writes `data` until the host has taken all of it: an interrupted request is repeated, any
    /// other error ends the writing, and so does, with the error `zero`, an answer that nothing
    /// was written. Where `lenient` holds, a stream that is not open takes everything.
    pub open spec fn drain(self, data: Seq<u8>, lenient: bool, zero: Fault) -> Drained
        decreases self.left(),
    {
        if data.len() == 0 {
            Drained { output: self, rest: data, result: Ok(()) }
        } else {
            let next = self.ask(WriteAsk::Write(data));
            let reply = self.reply_within(data.len());
            match if lenient {
                forgiven(reply, data.len())
            } else {
                reply
            } {
                Ok(count) => if count == 0 {
                    Drained { output: next, rest: data, result: Err(Error::Fault(zero)) }
                } else {
                    next.drain(data.skip(count as int), lenient, zero)
                },
                Err(error) => if error.interrupted() {
                    next.drain(data, lenient, zero)
                } else {
                    Drained { output: next, rest: data, result: Err(error) }
                },
            }
        }
    }

    /// Writes all of `data`.
    pub open spec fn write_all(self, data: Seq<u8>) -> Drained {
        self.drain(data, false, Fault::WriteBuffer)
    }

    /// Writes all that several buffers hold, of which the first is not empty.
    pub open spec fn drain_vectored(self, data: Seq<Seq<u8>>) -> Drained
        decreases self.left(),
    {
        if data.len() == 0 {
            Drained { output: self, rest: Seq::empty(), result: Ok(()) }
        } else {
            let next = self.ask(WriteAsk::WriteVectored(data));
            match self.reply_within(data.flatten().len()) {
                Ok(count) => if count == 0 {
                    Drained {
                        output: next,
                        rest: data.flatten(),
                        result: Err(Error::Fault(Fault::WriteBuffer)),
                    }
                } else {
                    next.drain_vectored(advance(data, count))
                },
                Err(error) => if error.interrupted() {
                    next.drain_vectored(data)
                } else {
                    Drained { output: next, rest: data.flatten(), result: Err(error) }
                },
            }
        }
    }

    /// Writes all that several buffers hold.
    pub open spec fn write_all_vectored(self, data: Seq<Seq<u8>>) -> Drained {
        self.drain_vectored(advance(data, 0))
    }

    /// Writes all of the pieces, one after the other.
    pub open spec fn write_pieces(self, pieces: Seq<Seq<u8>>) -> Drained
        decreases pieces.len(),
    {
        if pieces.len() == 0 {
            Drained { output: self, rest: Seq::empty(), result: Ok(()) }
        } else {
            let first = self.write_all(pieces[0]);
            let others = pieces.drop_first();
            if first.result is Err {
                Drained { rest: first.rest + others.flatten(), ..first }
            } else {
                first.output.write_pieces(others)
            }
        }
    }
}

impl Sink {
    /// A host's end that has not been asked anything.
    pub fn new() -> (sink: Sink)
        ensures
            sink@ == (Output { answers: Seq::empty(), asked: Seq::empty(), vectored: true }),
    {
        let sink = Sink { answers: Vec::new(), asked: Vec::new(), vectored: true };
        assert(sink@.asked =~= Seq::empty());
        sink
    }

    /// Adds the next answer.
    pub fn answer(&mut self, answer: Result<usize, Error>)
        ensures
            final(self)@ == (Output { answers: old(self)@.answers.push(answer), ..old(self)@ }),
    {
        self.answers.push(answer);
    }

    /// The first request that has no answer.
    pub fn pending(&self) -> (request: Option<&WriteRequest>)
        ensures
            match request {
                Some(request) => self@.asked.len() > self@.answers.len() && request@
                    == self@.asked[self@.answers.len() as int],
                None => self@.asked.len() <= self@.answers.len(),
            },
    {
        if self.answers.len() < self.asked.len() {
            Some(&self.asked[self.answers.len()])
        } else {
            None
        }
    }

    /// Forgets the requests and the answers.
    pub fn settle(&mut self)
        ensures
            final(self)@ == (Output {
                answers: Seq::empty(),
                asked: Seq::empty(),
                vectored: old(self)@.vectored,
            }),
    {
        self.answers = Vec::new();
        self.asked = Vec::new();
        assert(self@.asked =~= Seq::empty());
    }

    /// Makes a request, and returns its answer.
    fn request(&mut self, request: WriteRequest) -> (reply: Result<usize, Error>)
        ensures
            final(self)@ == old(self)@.ask(request@),
            counted(reply) == old(self)@.reply(),
    {
        let at: usize = self.asked.len();
        self.asked.push(request);
        assert(self@.asked =~= old(self)@.asked.push(request@));
        if at < self.answers.len() {
            self.answers[at]
        } else {
            Err(Error::Unanswered)
        }
    }

    /// Asks the host to write `buf`.
    pub fn write(&mut self, buf: &[u8]) -> (result: Result<usize, Error>)
        ensures
            final(self)@ == old(self)@.ask(WriteAsk::Write(buf@)),
            counted(result) == old(self)@.reply_within(buf@.len()),
    {
        match self.request(WriteRequest::Write(vstd::slice::slice_to_vec(buf))) {
            Ok(count) => Ok(
                if count <= buf.len() {
                    count
                } else {
                    buf.len()
                },
            ),
            Err(error) => Err(error),
        }
    }

    /// Asks the host to write what several buffers hold.
    pub fn write_vectored(&mut self, bufs: &[&[u8]]) -> (result: Result<usize, Error>)
        ensures
            final(self)@ == old(self)@.ask(WriteAsk::WriteVectored(slices(bufs@))),
            counted(result) == old(self)@.reply_within(slices(bufs@).flatten().len()),
    {
        match self.request(WriteRequest::WriteVectored(copies(bufs))) {
            Ok(count) => Ok(total_within(bufs, count)),
            Err(error) => Err(error),
        }
    }

    /// Whether the host can write several buffers at one request.
    pub fn is_write_vectored(&self) -> (yes: bool)
        ensures
            yes == self@.vectored,
    {
        self.vectored
    }

    /// Asks the host to flush.
    pub fn flush(&mut self) -> (result: Result<(), Error>)
        ensures
            final(self)@ == old(self)@.ask(WriteAsk::Flush),
            result == old(self)@.reply_flush(),
    {
        match self.request(WriteRequest::Flush) {
            Ok(_) => Ok(()),
            Err(error) => Err(error),
        }
    }

    /// Writes all of `buf`.
    pub fn write_all(&mut self, buf: &[u8]) -> (result: Result<(), Error>)
        ensures
            ({
                let drained = old(self)@.write_all(buf@);
                &&& final(self)@ == drained.output
                &&& result == drained.result
            }),
    {
        let ghost whole = old(self)@.write_all(buf@);
        let mut at: usize = 0;
        assert(buf@.skip(0) =~= buf@);
        while at < buf.len()
            invariant
                at <= buf@.len(),
                whole == old(self)@.write_all(buf@),
                self@.write_all(buf@.skip(at as int)) == whole,
            decreases self@.left(), buf@.len() - at,
        {
            let part = vstd::slice::slice_subrange(buf, at, buf.len());
            assert(part@ =~= buf@.skip(at as int));
            match self.write(part) {
                Ok(count) => {
                    if count == 0 {
                        return Err(Error::Fault(Fault::WriteBuffer));
                    }
                    assert(part@.skip(count as int) =~= buf@.skip(at + count));
                    at = at + count;
                },
                Err(error) => {
                    if !error.is_interrupted() {
                        return Err(error);
                    }
                },
            }
        }
        Ok(())
    }

    /// Writes all that several buffers hold.
    pub fn write_all_vectored(&mut self, bufs: &[&[u8]]) -> (result: Result<(), Error>)
        ensures
            ({
                let drained = old(self)@.write_all_vectored(slices(bufs@));
                &&& final(self)@ == drained.output
                &&& result == drained.result
            }),
    {
        let ghost whole = old(self)@.write_all_vectored(slices(bufs@));
        let mut left = advance_slices(bufs, 0);
        while left.len() > 0
            invariant
                whole == old(self)@.write_all_vectored(slices(bufs@)),
                self@.drain_vectored(slices(left@)) == whole,
            decreases self@.left(), left@.len(),
        {
            match self.write_vectored(left.as_slice()) {
                Ok(count) => {
                    if count == 0 {
                        return Err(Error::Fault(Fault::WriteBuffer));
                    }
                    left = advance_slices(left.as_slice(), count);
                },
                Err(error) => {
                    if !error.is_interrupted() {
                        return Err(error);
                    }
                },
            }
        }
        Ok(())
    }

    /// Writes formatted output.
    pub fn write_fmt(&mut self, args: &Arguments) -> (result: Result<(), Error>)
        ensures
            ({
                let drained = old(self)@.write_pieces(args@.pieces);
                &&& final(self)@ == drained.output
                &&& result == format_result(drained.result, args@.failed)
            }),
    {
        let ghost whole = old(self)@.write_pieces(args@.pieces);
        let mut at: usize = 0;
        assert(args@.pieces.skip(0) =~= args@.pieces);
        while at < args.pieces.len()
            invariant
                at <= args.pieces@.len(),
                whole == old(self)@.write_pieces(args@.pieces),
                ({
                    let rest = self@.write_pieces(args@.pieces.skip(at as int));
                    &&& rest.output == whole.output
                    &&& rest.result == whole.result
                }),
            decreases args.pieces@.len() - at,
        {
            let ghost rest = args@.pieces.skip(at as int);
            assert(rest.drop_first() =~= args@.pieces.skip(at + 1));
            match self.write_all(args.pieces[at].as_str().as_bytes()) {
                Ok(()) => {},
                Err(error) => {
                    return Err(error);
                },
            }
            at = at + 1;
        }
        if args.failed {
            Err(Error::Fault(Fault::Formatter))
        } else {
            Ok(())
        }
    }
}

} // verus!
