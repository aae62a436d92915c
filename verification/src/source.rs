//! The host's end of standard input.
//!
//! Standard input lies outside: every byte comes from the host, and only on request. A [`Source`]
//! keeps the requests that were made and the answers that the host has given to them, in order.
//! When the answers run out, a request fails with [`Error::Unanswered`]; whoever drives the
//! stream then performs the first request that has no answer, and repeats the operation from the
//! state in which it began.
use vstd::prelude::*;

use crate::bytes::{contents, copy_into, counted, least, lengths, overwrite, scatter};
use crate::error::Error;
use crate::text::{append_to_string, text_of, text_result};

verus! {

/// How many bytes are asked for at a time when all the input is wanted.
pub const READ_CHUNK: usize = 8192;

/// A request for input.
#[derive(Clone, Debug)]
pub enum ReadRequest {
    /// Read at most so many bytes.
    Read(usize),
    /// Read at most so many bytes, for buffers of these lengths.
    ReadVectored(Vec<usize>),
}

/// What a [`ReadRequest`] asks for.
pub enum ReadAsk {
    Read(nat),
    ReadVectored(Seq<nat>),
}

impl View for ReadRequest {
    type V = ReadAsk;

    open spec fn view(&self) -> ReadAsk {
        match *self {
            ReadRequest::Read(len) => ReadAsk::Read(len as nat),
            ReadRequest::ReadVectored(lens) => ReadAsk::ReadVectored(
                lens@.map_values(|len: usize| len as nat),
            ),
        }
    }
}

/// The host's end of standard input: the answers that it has given, and what it was asked.
#[derive(Clone, Debug)]
pub struct Source {
    /// The answers, in order. An empty answer says that the input has ended.
    pub answers: Vec<Result<Vec<u8>, Error>>,
    /// The requests, in order. The answer to a request has the same index.
    pub asked: Vec<ReadRequest>,
    /// Whether the host can fill several buffers at one request.
    pub vectored: bool,
}

/// The contents of a [`Source`].
#[verifier::ext_equal]
pub struct Input {
    pub answers: Seq<Result<Seq<u8>, Error>>,
    pub asked: Seq<ReadAsk>,
    pub vectored: bool,
}

/// The contents of an answer.
pub open spec fn answer_view(answer: Result<Vec<u8>, Error>) -> Result<Seq<u8>, Error> {
    match answer {
        Ok(data) => Ok(data@),
        Err(error) => Err(error),
    }
}

impl View for Source {
    type V = Input;

    open spec fn view(&self) -> Input {
        Input {
            answers: self.answers@.map_values(|answer: Result<Vec<u8>, Error>| answer_view(answer)),
            asked: self.asked@.map_values(|request: ReadRequest| request@),
            vectored: self.vectored,
        }
    }
}

/// The bytes that came, none where the request failed.
pub open spec fn data_of(got: Result<Seq<u8>, Error>) -> Seq<u8> {
    match got {
        Ok(data) => data,
        Err(_) => Seq::empty(),
    }
}

/// How many bytes came.
pub open spec fn count_of(got: Result<Seq<u8>, Error>) -> Result<nat, Error> {
    match got {
        Ok(data) => Ok(data.len()),
        Err(error) => Err(error),
    }
}

/// The input that an operation got: the host's end after it, the bytes, and what it returned.
#[verifier::ext_equal]
pub struct Gathered {
    pub input: Input,
    pub data: Seq<u8>,
    pub result: Result<nat, Error>,
}

impl Input {
    /// The number of answers that have not been used yet.
    pub open spec fn left(self) -> nat {
        if self.asked.len() <= self.answers.len() {
            (self.answers.len() - self.asked.len()) as nat
        } else {
            0
        }
    }

    /// The answer to the next request.
    pub open spec fn reply(self) -> Result<Seq<u8>, Error> {
        if self.asked.len() < self.answers.len() {
            self.answers[self.asked.len() as int]
        } else {
            Err(Error::Unanswered)
        }
    }

    /// The host's end after one more request.
    pub open spec fn ask(self, request: ReadAsk) -> Input {
        Input { asked: self.asked.push(request), ..self }
    }

    /// The answer to the next request, if it is for at most `len` bytes: what exceeds them is
    /// not taken.
    pub open spec fn reply_within(self, len: nat) -> Result<Seq<u8>, Error> {
        match self.reply() {
            Ok(data) => Ok(data.take(least(data.len(), len) as int)),
            Err(error) => Err(error),
        }
    }

    /// The host's end after `read` into a buffer of length `len`.
    pub open spec fn after_read(self, len: nat) -> Input {
        self.ask(ReadAsk::Read(len))
    }

    /// Reads until the host says that the input has ended: an interrupted request is repeated,
    /// any other error ends the reading, and what came before it is kept.
    pub open spec fn read_to_end(self) -> Gathered
        decreases self.left(),
    {
        let next = self.after_read(READ_CHUNK as nat);
        match self.reply_within(READ_CHUNK as nat) {
            Ok(data) => if data.len() == 0 {
                Gathered { input: next, data: Seq::empty(), result: Ok(0) }
            } else {
                let rest = next.read_to_end();
                Gathered {
                    input: rest.input,
                    data: data + rest.data,
                    result: match rest.result {
                        Ok(count) => Ok(data.len() + count),
                        Err(error) => Err(error),
                    },
                }
            },
            Err(error) => if error.interrupted() {
                next.read_to_end()
            } else {
                Gathered { input: next, data: Seq::empty(), result: Err(error) }
            },
        }
    }
}

/// Reading to the end returns how many bytes it got.
pub proof fn lemma_read_to_end_count(input: Input)
    ensures
        ({
            let got = input.read_to_end();
            got.result matches Ok(count) ==> count == got.data.len()
        }),
    decreases input.left(),
{
    let next = input.after_read(READ_CHUNK as nat);
    if input.left() > 0 {
        lemma_read_to_end_count(next);
    }
}

impl Source {
    /// A host's end that has not been asked anything.
    pub fn new() -> (source: Source)
        ensures
            source@ == (Input { answers: Seq::empty(), asked: Seq::empty(), vectored: true }),
    {
        let source = Source { answers: Vec::new(), asked: Vec::new(), vectored: true };
        assert(source@.answers =~= Seq::empty());
        assert(source@.asked =~= Seq::empty());
        source
    }

    /// Adds the next answer.
    pub fn answer(&mut self, answer: Result<Vec<u8>, Error>)
        ensures
            final(self)@ == (Input {
                answers: old(self)@.answers.push(answer_view(answer)),
                ..old(self)@
            }),
    {
        self.answers.push(answer);
        assert(self@.answers =~= old(self)@.answers.push(answer_view(answer)));
    }

    /// The first request that has no answer.
    pub fn pending(&self) -> (request: Option<&ReadRequest>)
        ensures
            match request {
                Some(request) => self@.asked.len() > self@.answers.len() && request@
                    == self@.asked[self@.answers.len() as int],
                None => self@.asked.len() <= self@.answers.len(),
            },
    {
        if self.answers.len() < self.asked.len() {
            Some(&self.asked[self.answers.len()])
        } else {
            None
        }
    }

    /// Forgets the requests and the answers.
    pub fn settle(&mut self)
        ensures
            final(self)@ == (Input {
                answers: Seq::empty(),
                asked: Seq::empty(),
                vectored: old(self)@.vectored,
            }),
    {
        self.answers = Vec::new();
        self.asked = Vec::new();
        assert(self@.answers =~= Seq::empty());
        assert(self@.asked =~= Seq::empty());
    }

    /// Notes a request.
    fn note(&mut self, request: ReadRequest)
        ensures
            final(self)@ == old(self)@.ask(request@),
            final(self).answers == old(self).answers,
            final(self).asked@.len() == old(self).asked@.len() + 1,
    {
        self.asked.push(request);
        assert(self@.asked =~= old(self)@.asked.push(request@));
    }

    /// Asks the host to fill `buf`.
    pub fn read(&mut self, buf: &mut [u8]) -> (result: Result<usize, Error>)
        ensures
            final(self)@ == old(self)@.after_read(old(buf)@.len()),
            ({
                let got = old(self)@.reply_within(old(buf)@.len());
                &&& final(buf)@ == overwrite(old(buf)@, data_of(got))
                &&& counted(result) == count_of(got)
            }),
    {
        let at: usize = self.asked.len();
        self.note(ReadRequest::Read(buf.len()));
        assert(old(buf)@.skip(0) =~= old(buf)@);
        assert(Seq::<u8>::empty() + old(buf)@ =~= old(buf)@);
        if at < self.answers.len() {
            assert(old(self)@.reply() == answer_view(self.answers@[at as int]));
            match &self.answers[at] {
                Ok(data) => {
                    let count: usize = if data.len() <= buf.len() {
                        data.len()
                    } else {
                        buf.len()
                    };
                    let part = vstd::slice::slice_subrange(data.as_slice(), 0, count);
                    assert(part@ =~= data@.take(count as int));
                    copy_into(buf, part);
                    Ok(count)
                },
                Err(error) => Err(*error),
            }
        } else {
            Err(Error::Unanswered)
        }
    }

    /// Asks the host to fill several buffers, each in its turn.
    pub fn read_vectored(&mut self, bufs: &mut Vec<Vec<u8>>) -> (result: Result<usize, Error>)
        ensures
            final(self)@ == old(self)@.ask(
                ReadAsk::ReadVectored(lengths(contents(old(bufs)@))),
            ),
            ({
                let all = contents(old(bufs)@).flatten();
                let got = old(self)@.reply_within(all.len());
                &&& lengths(contents(final(bufs)@)) == lengths(contents(old(bufs)@))
                &&& contents(final(bufs)@).flatten() == overwrite(all, data_of(got))
                &&& counted(result) == count_of(got)
            }),
    {
        let ghost all = contents(old(bufs)@).flatten();
        let at: usize = self.asked.len();
        let mut lens: Vec<usize> = Vec::new();
        let mut next: usize = 0;
        while next < bufs.len()
            invariant
                next <= bufs@.len(),
                bufs@ == old(bufs)@,
                lens@.len() == next,
                forall|i: int| 0 <= i < next ==> #[trigger] lens@[i] == bufs@[i]@.len(),
            decreases bufs@.len() - next,
        {
            lens.push(bufs[next].len());
            next = next + 1;
        }
        assert(lens@.map_values(|len: usize| len as nat) =~= lengths(contents(bufs@)));
        self.note(ReadRequest::ReadVectored(lens));
        assert(all.skip(0) =~= all);
        assert(Seq::<u8>::empty() + all =~= all);
        if at < self.answers.len() {
            assert(old(self)@.reply() == answer_view(self.answers@[at as int]));
            match &self.answers[at] {
                Ok(data) => Ok(scatter(bufs, data.as_slice())),
                Err(error) => Err(*error),
            }
        } else {
            Err(Error::Unanswered)
        }
    }

    /// Whether the host can fill several buffers at one request.
    pub fn is_read_vectored(&self) -> (yes: bool)
        ensures
            yes == self@.vectored,
    {
        self.vectored
    }

    /// Reads all the input that is left, and adds it to `buf`.
    pub fn read_to_end(&mut self, buf: &mut Vec<u8>) -> (result: Result<usize, Error>)
        ensures
            ({
                let got = old(self)@.read_to_end();
                &&& final(self)@ == got.input
                &&& final(buf)@ == old(buf)@ + got.data
                &&& counted(result) == got.result
            }),
    {
        let start: usize = buf.len();
        let ghost whole = old(self)@.read_to_end();
        loop
            invariant
                start == old(buf)@.len() <= buf@.len(),
                whole == old(self)@.read_to_end(),
                ({
                    let rest = self@.read_to_end();
                    &&& whole.input == rest.input
                    &&& old(buf)@ + whole.data == buf@ + rest.data
                    &&& whole.result == (match rest.result {
                        Ok(count) => Ok((buf@.len() - start + count) as nat),
                        Err(error) => Err(error),
                    })
                }),
            decreases self@.left(),
        {
            let ghost before = self@;
            let ghost kept = buf@;
            let mut chunk: Vec<u8> = vec![0; READ_CHUNK];
            let got = self.read(chunk.as_mut_slice());
            match got {
                Ok(count) => {
                    if count == 0 {
                        assert(kept + Seq::<u8>::empty() =~= kept);
                        return Ok(buf.len() - start);
                    }
                    let ghost rest = self@.read_to_end();
                    let part = vstd::slice::slice_subrange(chunk.as_slice(), 0, count);
                    proof {
                        let data = before.reply_within(READ_CHUNK as nat)->Ok_0;
                        assert(part@ =~= data);
                        assert(kept + (data + rest.data) =~= (kept + data) + rest.data);
                    }
                    buf.extend_from_slice(part);
                    assert(buf@ =~= kept + part@);
                },
                Err(error) => {
                    if !error.is_interrupted() {
                        assert(kept + Seq::<u8>::empty() =~= kept);
                        return Err(error);
                    }
                },
            }
        }
    }

    /// Reads all the input that is left as text, and adds it to `buf`.
    pub fn read_to_string(&mut self, buf: &mut String) -> (result: Result<usize, Error>)
        ensures
            ({
                let got = old(self)@.read_to_end();
                &&& final(self)@ == got.input
                &&& final(buf)@ == old(buf)@ + text_of(got.data)
                &&& counted(result) == text_result(got.data, got.result)
            }),
    {
        let mut data: Vec<u8> = Vec::new();
        let result = self.read_to_end(&mut data);
        assert(data@ =~= old(self)@.read_to_end().data);
        append_to_string(buf, data.as_slice(), result)
    }
}

} // verus!
