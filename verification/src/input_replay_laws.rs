//! Laws of repeated input operations.
//!
//! As with output, an operation that runs out of answers is repeated with more of them, from the
//! state in which it began.
use vstd::prelude::*;

use crate::buf_reader::{Reader, Taken};
use crate::error::Error;
use crate::scan::{lemma_through_first, through_first};
use crate::source::{Gathered, Input, ReadAsk, READ_CHUNK};

verus! {

/// Whether the host has answered all that it was asked.
pub open spec fn answered(input: Input) -> bool {
    input.asked.len() <= input.answers.len()
}

/// The host's end with the answers `extra` after those that it has.
pub open spec fn more(input: Input, extra: Seq<Result<Seq<u8>, Error>>) -> Input {
    Input { answers: input.answers + extra, ..input }
}

/// A reader with more answers.
pub open spec fn more_for(reader: Reader, extra: Seq<Result<Seq<u8>, Error>>) -> Reader {
    Reader { input: more(reader.input, extra), ..reader }
}

/// Whether `now` is `before` after some more requests.
pub open spec fn grown(before: Input, now: Input) -> bool {
    &&& now.answers == before.answers
    &&& now.vectored == before.vectored
    &&& now.asked.len() >= before.asked.len()
    &&& now.asked.take(before.asked.len() as int) == before.asked
}

/// Whether `first` stopped at the first request without an answer, and `again` made all the
/// requests that `first` made, that one with the others.
pub open spec fn stopped(first: Input, again: Input) -> bool {
    &&& first.asked.len() == first.answers.len() + 1
    &&& again.asked.len() >= first.asked.len()
    &&& again.asked.take(first.asked.len() as int) == first.asked
}

/// Whether `again` repeats `first` with the answers `extra` on top: it is the same if `first` had
/// all the answers that it needed, and goes on from where `first` stopped if not.
pub open spec fn repeats(
    first: Taken,
    again: Taken,
    extra: Seq<Result<Seq<u8>, Error>>,
) -> bool {
    if answered(first.reader.input) {
        again == (Taken { reader: more_for(first.reader, extra), ..first })
    } else {
        &&& first.result == Err::<nat, Error>(Error::Unanswered)
        &&& stopped(first.reader.input, again.reader.input)
    }
}

/// As [`repeats`], without a buffer.
pub open spec fn repeats_gathered(
    first: Gathered,
    again: Gathered,
    extra: Seq<Result<Seq<u8>, Error>>,
) -> bool {
    if answered(first.input) {
        again == (Gathered { input: more(first.input, extra), ..first })
    } else {
        &&& first.result == Err::<nat, Error>(Error::Unanswered)
        &&& stopped(first.input, again.input)
    }
}

/// No request is no growth.
proof fn lemma_grown_same(input: Input)
    ensures
        grown(input, input),
{
    assert(input.asked.take(input.asked.len() as int) =~= input.asked);
}

/// A request is growth.
proof fn lemma_grown_ask(input: Input, request: ReadAsk)
    ensures
        grown(input, input.ask(request)),
{
    assert(input.ask(request).asked.take(input.asked.len() as int) =~= input.asked);
}

/// Growth adds up.
proof fn lemma_grown_twice(before: Input, between: Input, now: Input)
    requires
        grown(before, between),
        grown(between, now),
    ensures
        grown(before, now),
{
    assert(now.asked.take(before.asked.len() as int) =~= now.asked.take(
        between.asked.len() as int,
    ).take(before.asked.len() as int));
}

/// What stopped is repeated too by what goes on after the repetition.
proof fn lemma_stopped_grown(first: Input, again: Input, later: Input)
    requires
        stopped(first, again),
        grown(again, later),
    ensures
        stopped(first, later),
{
    assert(later.asked.take(first.asked.len() as int) =~= later.asked.take(
        again.asked.len() as int,
    ).take(first.asked.len() as int));
}

/// The answer to a request is the same with more answers, if there is one.
proof fn lemma_reply(input: Input, request: ReadAsk, extra: Seq<Result<Seq<u8>, Error>>)
    requires
        answered(input),
    ensures
        more(input, extra).ask(request) == more(input.ask(request), extra),
        answered(input.ask(request)) ==> more(input, extra).reply() == input.reply(),
        !answered(input.ask(request)) ==> {
            &&& input.reply() == Err::<Seq<u8>, Error>(Error::Unanswered)
            &&& stopped(input.ask(request), more(input, extra).ask(request))
        },
{
    let next = input.ask(request);
    assert(next.asked.take(next.asked.len() as int) =~= next.asked);
}

proof fn lemma_raw_read_to_end_grown(input: Input)
    ensures
        grown(input, input.read_to_end().input),
        grown(input.after_read(READ_CHUNK as nat), input.read_to_end().input),
    decreases input.left(),
{
    let next = input.after_read(READ_CHUNK as nat);
    lemma_grown_same(next);
    lemma_grown_ask(input, ReadAsk::Read(READ_CHUNK as nat));
    if input.left() > 0 {
        lemma_raw_read_to_end_grown(next);
    }
    lemma_grown_twice(input, next, input.read_to_end().input);
}

/// Reading to the end past the buffer makes the same requests when it is repeated with more
/// answers after it ran out of them, and is the same if it did not.
pub proof fn law_raw_read_to_end_repeats(input: Input, extra: Seq<Result<Seq<u8>, Error>>)
    requires
        answered(input),
    ensures
        repeats_gathered(input.read_to_end(), more(input, extra).read_to_end(), extra),
    decreases input.left(),
{
    let request = ReadAsk::Read(READ_CHUNK as nat);
    let next = input.ask(request);
    let again = more(input, extra);
    lemma_reply(input, request, extra);
    if answered(next) {
        law_raw_read_to_end_repeats(next, extra);
    } else {
        lemma_raw_read_to_end_grown(again);
        lemma_stopped_grown(next, again.ask(request), again.read_to_end().input);
    }
}

/// As [`law_raw_read_to_end_repeats`], for one request past the buffer.
pub proof fn law_raw_request_repeats(
    input: Input,
    request: ReadAsk,
    extra: Seq<Result<Seq<u8>, Error>>,
)
    requires
        answered(input),
    ensures
        ({
            let first = input.ask(request);
            let again = more(input, extra).ask(request);
            if answered(first) {
                &&& again == more(first, extra)
                &&& more(input, extra).reply() == input.reply()
            } else {
                &&& input.reply() == Err::<Seq<u8>, Error>(Error::Unanswered)
                &&& stopped(first, again)
            }
        }),
{
    lemma_reply(input, request, extra);
}

proof fn lemma_fill_grown(reader: Reader)
    ensures
        grown(reader.input, reader.fill().0.input),
{
    lemma_grown_same(reader.input);
    lemma_grown_ask(reader.input, ReadAsk::Read(reader.capacity));
}

/// As [`law_raw_read_to_end_repeats`], for filling the buffer.
pub proof fn law_fill_repeats(reader: Reader, extra: Seq<Result<Seq<u8>, Error>>)
    requires
        answered(reader.input),
    ensures
        ({
            let first = reader.fill();
            let again = more_for(reader, extra).fill();
            if answered(first.0.input) {
                again == (more_for(first.0, extra), first.1)
            } else {
                &&& first.1 == Err::<(), Error>(Error::Unanswered)
                &&& stopped(first.0.input, again.0.input)
            }
        }),
{
    lemma_reply(reader.input, ReadAsk::Read(reader.capacity), extra);
}

proof fn lemma_read_grown(reader: Reader, len: nat)
    ensures
        grown(reader.input, reader.read(len).reader.input),
{
    lemma_fill_grown(reader);
    lemma_grown_ask(reader.input, ReadAsk::Read(len));
}

/// As [`law_raw_read_to_end_repeats`], for reading.
pub proof fn law_read_repeats(reader: Reader, len: nat, extra: Seq<Result<Seq<u8>, Error>>)
    requires
        answered(reader.input),
    ensures
        repeats(reader.read(len), more_for(reader, extra).read(len), extra),
{
    law_fill_repeats(reader, extra);
    lemma_reply(reader.input, ReadAsk::Read(len), extra);
}

/// As [`law_raw_read_to_end_repeats`], for reading into several buffers.
pub proof fn law_read_vectored_repeats(
    reader: Reader,
    lens: Seq<nat>,
    len: nat,
    extra: Seq<Result<Seq<u8>, Error>>,
)
    requires
        answered(reader.input),
    ensures
        repeats(
            reader.read_vectored(lens, len),
            more_for(reader, extra).read_vectored(lens, len),
            extra,
        ),
{
    law_fill_repeats(reader, extra);
    lemma_reply(reader.input, ReadAsk::ReadVectored(lens), extra);
}

proof fn lemma_read_exact_grown(reader: Reader, len: nat)
    ensures
        grown(reader.input, reader.read_exact(len).reader.input),
        len > 0 ==> grown(
            reader.read(len).reader.input,
            reader.read_exact(len).reader.input,
        ),
    decreases reader.input.left(), len,
{
    lemma_grown_same(reader.input);
    if len > 0 {
        let part = reader.read(len);
        lemma_read_grown(reader, len);
        lemma_grown_same(part.reader.input);
        match part.result {
            Ok(count) => {
                if count > 0 {
                    lemma_read_exact_grown(part.reader, (len - count) as nat);
                }
            },
            Err(error) => {
                if error.interrupted() {
                    lemma_read_exact_grown(part.reader, len);
                }
            },
        }
        lemma_grown_twice(
            reader.input,
            part.reader.input,
            reader.read_exact(len).reader.input,
        );
    }
}

/// As [`law_raw_read_to_end_repeats`], for reading a given number of bytes.
pub proof fn law_read_exact_repeats(reader: Reader, len: nat, extra: Seq<Result<Seq<u8>, Error>>)
    requires
        answered(reader.input),
    ensures
        repeats(reader.read_exact(len), more_for(reader, extra).read_exact(len), extra),
    decreases reader.input.left(), len,
{
    if len > 0 {
        let again = more_for(reader, extra);
        let part = reader.read(len);
        law_read_repeats(reader, len, extra);
        if answered(part.reader.input) {
            match part.result {
                Ok(count) => {
                    if count > 0 {
                        law_read_exact_repeats(part.reader, (len - count) as nat, extra);
                    }
                },
                Err(error) => {
                    if error.interrupted() {
                        law_read_exact_repeats(part.reader, len, extra);
                    }
                },
            }
        } else {
            lemma_read_exact_grown(again, len);
            lemma_stopped_grown(
                part.reader.input,
                again.read(len).reader.input,
                again.read_exact(len).reader.input,
            );
        }
    }
}

/// As [`law_raw_read_to_end_repeats`], through the buffer.
pub proof fn law_read_to_end_repeats(reader: Reader, extra: Seq<Result<Seq<u8>, Error>>)
    requires
        answered(reader.input),
    ensures
        repeats(reader.read_to_end(), more_for(reader, extra).read_to_end(), extra),
{
    law_raw_read_to_end_repeats(reader.input, extra);
}

proof fn lemma_read_until_grown(reader: Reader, byte: u8)
    ensures
        grown(reader.input, reader.read_until(byte).reader.input),
        grown(reader.fill().0.input, reader.read_until(byte).reader.input),
    decreases reader.input.left(), reader.unread.len(),
{
    let (filled, result) = reader.fill();
    lemma_fill_grown(reader);
    lemma_grown_same(filled.input);
    lemma_through_first(filled.unread, byte);
    match result {
        Ok(_) => {
            if through_first(filled.unread, byte) is None && filled.unread.len() > 0 {
                lemma_read_until_grown(filled.consume(filled.unread.len()), byte);
            }
        },
        Err(error) => {
            if error.interrupted() {
                lemma_read_until_grown(filled, byte);
            }
        },
    }
    lemma_grown_twice(reader.input, filled.input, reader.read_until(byte).reader.input);
}

/// As [`law_raw_read_to_end_repeats`], for reading up to a byte.
pub proof fn law_read_until_repeats(reader: Reader, byte: u8, extra: Seq<Result<Seq<u8>, Error>>)
    requires
        answered(reader.input),
    ensures
        repeats(reader.read_until(byte), more_for(reader, extra).read_until(byte), extra),
    decreases reader.input.left(), reader.unread.len(),
{
    let again = more_for(reader, extra);
    let (filled, result) = reader.fill();
    law_fill_repeats(reader, extra);
    if answered(filled.input) {
        match result {
            Ok(_) => {
                lemma_through_first(filled.unread, byte);
                if through_first(filled.unread, byte) is None && filled.unread.len() > 0 {
                    let next = filled.consume(filled.unread.len());
                    law_read_until_repeats(next, byte, extra);
                }
            },
            Err(error) => {
                if error.interrupted() {
                    law_read_until_repeats(filled, byte, extra);
                }
            },
        }
    } else {
        lemma_read_until_grown(again, byte);
        lemma_stopped_grown(
            filled.input,
            again.fill().0.input,
            again.read_until(byte).reader.input,
        );
    }
}

} // verus!
