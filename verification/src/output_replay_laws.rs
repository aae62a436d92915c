//! Laws of repeated output operations.
//!
//! An operation that runs out of answers is repeated with more of them, from the state in which it
//! began. It then makes the same requests again, so that the answers stay those to its requests,
//! and once it has all the answers that it needs, more of them change nothing.
use vstd::prelude::*;

use crate::bytes::{advance, lemma_advance, NEWLINE};
use crate::error::{forgiven, Error, Fault};
use crate::line_writer::{
    first_filled, lemma_write_vectored_progress, through_last_line, Done, Writer,
};
use crate::scan::through_last;
use crate::sink::{Drained, Output, WriteAsk};
use crate::stderr::write_pieces;
use crate::stdout::unbuffered;

verus! {

/// Whether the host has answered all that it was asked.
pub open spec fn answered(output: Output) -> bool {
    output.asked.len() <= output.answers.len()
}

/// The host's end with the answers `extra` after those that it has.
pub open spec fn more(output: Output, extra: Seq<Result<usize, Error>>) -> Output {
    Output { answers: output.answers + extra, ..output }
}

/// A writer with more answers.
pub open spec fn more_for(writer: Writer, extra: Seq<Result<usize, Error>>) -> Writer {
    Writer { output: more(writer.output, extra), ..writer }
}

/// Whether `now` is `before` after some more requests.
pub open spec fn grown(before: Output, now: Output) -> bool {
    &&& now.answers == before.answers
    &&& now.vectored == before.vectored
    &&& now.asked.len() >= before.asked.len()
    &&& now.asked.take(before.asked.len() as int) == before.asked
}

/// Whether `first` stopped at the first request without an answer, and `again` made all the
/// requests that `first` made, that one with the others.
pub open spec fn stopped(first: Output, again: Output) -> bool {
    &&& first.asked.len() == first.answers.len() + 1
    &&& again.asked.len() >= first.asked.len()
    &&& again.asked.take(first.asked.len() as int) == first.asked
}

/// Whether `again` repeats `first` with the answers `extra` on top: it is the same if `first` had
/// all the answers that it needed, and goes on from where `first` stopped if not.
pub open spec fn repeats<T>(
    first: Done<T>,
    again: Done<T>,
    extra: Seq<Result<usize, Error>>,
) -> bool {
    if answered(first.writer.output) {
        again == (Done { writer: more_for(first.writer, extra), result: first.result })
    } else {
        &&& first.result == Err::<T, Error>(Error::Unanswered)
        &&& stopped(first.writer.output, again.writer.output)
    }
}

/// As [`repeats`], without a buffer.
pub open spec fn repeats_drained(
    first: Drained,
    again: Drained,
    extra: Seq<Result<usize, Error>>,
) -> bool {
    if answered(first.output) {
        again == (Drained { output: more(first.output, extra), ..first })
    } else {
        &&& first.result == Err::<(), Error>(Error::Unanswered)
        &&& stopped(first.output, again.output)
    }
}

/// No request is no growth.
proof fn lemma_grown_same(output: Output)
    ensures
        grown(output, output),
{
    assert(output.asked.take(output.asked.len() as int) =~= output.asked);
}

/// A request is growth.
proof fn lemma_grown_ask(output: Output, request: WriteAsk)
    ensures
        grown(output, output.ask(request)),
{
    assert(output.ask(request).asked.take(output.asked.len() as int) =~= output.asked);
}

/// Growth adds up.
proof fn lemma_grown_twice(before: Output, between: Output, now: Output)
    requires
        grown(before, between),
        grown(between, now),
    ensures
        grown(before, now),
{
    assert(now.asked.take(before.asked.len() as int) =~= now.asked.take(
        between.asked.len() as int,
    ).take(before.asked.len() as int));
}

/// What stopped is repeated too by what goes on after the repetition.
proof fn lemma_stopped_grown(first: Output, again: Output, later: Output)
    requires
        stopped(first, again),
        grown(again, later),
    ensures
        stopped(first, later),
{
    assert(later.asked.take(first.asked.len() as int) =~= later.asked.take(
        again.asked.len() as int,
    ).take(first.asked.len() as int));
}

/// The answer to a request is the same with more answers, if there is one.
proof fn lemma_reply(output: Output, request: WriteAsk, extra: Seq<Result<usize, Error>>)
    requires
        answered(output),
    ensures
        more(output, extra).ask(request) == more(output.ask(request), extra),
        answered(output.ask(request)) ==> more(output, extra).reply() == output.reply(),
        !answered(output.ask(request)) ==> {
            &&& output.reply() == Err::<nat, Error>(Error::Unanswered)
            &&& stopped(output.ask(request), more(output, extra).ask(request))
        },
{
    let next = output.ask(request);
    assert(next.asked.take(next.asked.len() as int) =~= next.asked);
}

pub proof fn lemma_drain_grown(output: Output, data: Seq<u8>, lenient: bool, zero: Fault)
    ensures
        grown(output, output.drain(data, lenient, zero).output),
    decreases output.left(),
{
    lemma_grown_same(output);
    if data.len() > 0 {
        let next = output.ask(WriteAsk::Write(data));
        lemma_grown_ask(output, WriteAsk::Write(data));
        let reply = output.reply_within(data.len());
        match if lenient {
            forgiven(reply, data.len())
        } else {
            reply
        } {
            Ok(count) => {
                if count > 0 {
                    lemma_drain_grown(next, data.skip(count as int), lenient, zero);
                    let drained = next.drain(data.skip(count as int), lenient, zero);
                    lemma_grown_twice(output, next, drained.output);
                }
            },
            Err(error) => {
                if error.interrupted() {
                    lemma_drain_grown(next, data, lenient, zero);
                    lemma_grown_twice(output, next, next.drain(data, lenient, zero).output);
                }
            },
        }
    }
}

proof fn lemma_drain_repeats(
    output: Output,
    data: Seq<u8>,
    lenient: bool,
    zero: Fault,
    extra: Seq<Result<usize, Error>>,
)
    requires
        answered(output),
    ensures
        repeats_drained(
            output.drain(data, lenient, zero),
            more(output, extra).drain(data, lenient, zero),
            extra,
        ),
    decreases output.left(),
{
    if data.len() > 0 {
        let request = WriteAsk::Write(data);
        let next = output.ask(request);
        let again = more(output, extra);
        lemma_reply(output, request, extra);
        if answered(next) {
            let reply = output.reply_within(data.len());
            match if lenient {
                forgiven(reply, data.len())
            } else {
                reply
            } {
                Ok(count) => {
                    if count > 0 {
                        lemma_drain_repeats(next, data.skip(count as int), lenient, zero, extra);
                    }
                },
                Err(error) => {
                    if error.interrupted() {
                        lemma_drain_repeats(next, data, lenient, zero, extra);
                    }
                },
            }
        } else {
            let later = again.drain(data, lenient, zero).output;
            lemma_drain_asks(again, data, lenient, zero);
            lemma_stopped_grown(next, again.ask(request), later);
        }
    }
}

/// The first request of writing until all is taken.
proof fn lemma_drain_asks(output: Output, data: Seq<u8>, lenient: bool, zero: Fault)
    requires
        data.len() > 0,
    ensures
        grown(output.ask(WriteAsk::Write(data)), output.drain(data, lenient, zero).output),
{
    let next = output.ask(WriteAsk::Write(data));
    lemma_grown_same(next);
    lemma_drain_grown(next, data, lenient, zero);
    match forgiven(output.reply_within(data.len()), data.len()) {
        Ok(count) => lemma_drain_grown(next, data.skip(count as int), lenient, zero),
        Err(_) => {},
    }
}

pub proof fn lemma_flush_buf_grown(writer: Writer)
    ensures
        grown(writer.output, writer.flush_buf().writer.output),
{
    lemma_drain_grown(writer.output, writer.buffered, true, Fault::WriteBuffered);
}

proof fn lemma_flush_buf_repeats(writer: Writer, extra: Seq<Result<usize, Error>>)
    requires
        answered(writer.output),
    ensures
        repeats(writer.flush_buf(), more_for(writer, extra).flush_buf(), extra),
{
    lemma_drain_repeats(writer.output, writer.buffered, true, Fault::WriteBuffered, extra);
}

proof fn lemma_direct_repeats(writer: Writer, data: Seq<u8>, extra: Seq<Result<usize, Error>>)
    requires
        answered(writer.output),
    ensures
        repeats(writer.direct(data), more_for(writer, extra).direct(data), extra),
{
    lemma_reply(writer.output, WriteAsk::Write(data), extra);
}

proof fn lemma_direct_vectored_repeats(
    writer: Writer,
    data: Seq<Seq<u8>>,
    extra: Seq<Result<usize, Error>>,
)
    requires
        answered(writer.output),
    ensures
        repeats(writer.direct_vectored(data), more_for(writer, extra).direct_vectored(data), extra),
{
    lemma_reply(writer.output, WriteAsk::WriteVectored(data), extra);
}

proof fn lemma_write_buffered_grown(writer: Writer, data: Seq<u8>)
    ensures
        grown(writer.output, writer.write_buffered(data).writer.output),
{
    let room = writer.make_room(data.len()).writer;
    lemma_grown_same(writer.output);
    lemma_flush_buf_grown(writer);
    lemma_grown_ask(room.output, WriteAsk::Write(data));
    lemma_grown_twice(writer.output, room.output, room.direct(data).writer.output);
}

proof fn lemma_write_buffered_repeats(
    writer: Writer,
    data: Seq<u8>,
    extra: Seq<Result<usize, Error>>,
)
    requires
        answered(writer.output),
    ensures
        repeats(writer.write_buffered(data), more_for(writer, extra).write_buffered(data), extra),
{
    let again = more_for(writer, extra);
    let room = writer.make_room(data.len()).writer;
    let again_room = again.make_room(data.len()).writer;
    lemma_flush_buf_repeats(writer, extra);
    if answered(room.output) {
        lemma_direct_repeats(room, data, extra);
    } else {
        let later = again.write_buffered(data).writer.output;
        lemma_grown_same(again_room.output);
        lemma_grown_ask(again_room.output, WriteAsk::Write(data));
        lemma_stopped_grown(room.output, again_room.output, later);
    }
}

proof fn lemma_write_vectored_buffered_grown(writer: Writer, data: Seq<Seq<u8>>)
    ensures
        grown(writer.output, writer.write_vectored_buffered(data).writer.output),
{
    let room = writer.make_room(data.flatten().len()).writer;
    lemma_grown_same(writer.output);
    lemma_flush_buf_grown(writer);
    lemma_grown_ask(room.output, WriteAsk::WriteVectored(data));
    lemma_grown_twice(writer.output, room.output, room.direct_vectored(data).writer.output);
}

proof fn lemma_write_vectored_buffered_repeats(
    writer: Writer,
    data: Seq<Seq<u8>>,
    extra: Seq<Result<usize, Error>>,
)
    requires
        answered(writer.output),
    ensures
        repeats(
            writer.write_vectored_buffered(data),
            more_for(writer, extra).write_vectored_buffered(data),
            extra,
        ),
{
    let again = more_for(writer, extra);
    let room = writer.make_room(data.flatten().len()).writer;
    let again_room = again.make_room(data.flatten().len()).writer;
    lemma_flush_buf_repeats(writer, extra);
    if answered(room.output) {
        lemma_direct_vectored_repeats(room, data, extra);
    } else {
        let later = again.write_vectored_buffered(data).writer.output;
        lemma_grown_same(again_room.output);
        lemma_grown_ask(again_room.output, WriteAsk::WriteVectored(data));
        lemma_stopped_grown(room.output, again_room.output, later);
    }
}

proof fn lemma_write_all_buffered_grown(writer: Writer, data: Seq<u8>)
    ensures
        grown(writer.output, writer.write_all_buffered(data).writer.output),
{
    let room = writer.make_room(data.len()).writer;
    lemma_grown_same(writer.output);
    lemma_flush_buf_grown(writer);
    lemma_drain_grown(room.output, data, false, Fault::WriteBuffer);
    lemma_grown_twice(writer.output, room.output, room.direct_all(data).writer.output);
}

proof fn lemma_write_all_buffered_repeats(
    writer: Writer,
    data: Seq<u8>,
    extra: Seq<Result<usize, Error>>,
)
    requires
        answered(writer.output),
    ensures
        repeats(
            writer.write_all_buffered(data),
            more_for(writer, extra).write_all_buffered(data),
            extra,
        ),
{
    let again = more_for(writer, extra);
    let room = writer.make_room(data.len()).writer;
    let again_room = again.make_room(data.len()).writer;
    lemma_flush_buf_repeats(writer, extra);
    if answered(room.output) {
        lemma_drain_repeats(room.output, data, false, Fault::WriteBuffer, extra);
    } else {
        let later = again.write_all_buffered(data).writer.output;
        lemma_grown_same(again_room.output);
        lemma_drain_grown(again_room.output, data, false, Fault::WriteBuffer);
        lemma_stopped_grown(room.output, again_room.output, later);
    }
}

proof fn lemma_write_grown(writer: Writer, data: Seq<u8>)
    ensures
        grown(writer.output, writer.write(data).writer.output),
{
    let lines = through_last(data, NEWLINE);
    lemma_grown_same(writer.output);
    lemma_flush_buf_grown(writer);
    if lines == 0 {
        let ready = writer.flush_if_completed_line().writer;
        lemma_write_buffered_grown(ready, data);
        lemma_grown_twice(
            writer.output,
            ready.output,
            ready.write_buffered(data).writer.output,
        );
    } else {
        let ready = writer.flush_buf().writer;
        let head = data.take(lines as int);
        lemma_grown_ask(ready.output, WriteAsk::Write(head));
        lemma_grown_twice(writer.output, ready.output, ready.direct(head).writer.output);
    }
}

/// A write that ran out of answers makes the same requests when it is repeated with more of them,
/// and one that did not is the same.
pub proof fn law_write_repeats(writer: Writer, data: Seq<u8>, extra: Seq<Result<usize, Error>>)
    requires
        answered(writer.output),
    ensures
        repeats(writer.write(data), more_for(writer, extra).write(data), extra),
{
    let again = more_for(writer, extra);
    let lines = through_last(data, NEWLINE);
    let later = again.write(data).writer.output;
    lemma_flush_buf_repeats(writer, extra);
    if lines == 0 {
        let ready = writer.flush_if_completed_line().writer;
        let again_ready = again.flush_if_completed_line().writer;
        if answered(ready.output) {
            lemma_write_buffered_repeats(ready, data, extra);
        } else {
            lemma_grown_same(again_ready.output);
            lemma_write_buffered_grown(again_ready, data);
            lemma_stopped_grown(ready.output, again_ready.output, later);
        }
    } else {
        let ready = writer.flush_buf().writer;
        let again_ready = again.flush_buf().writer;
        let head = data.take(lines as int);
        if answered(ready.output) {
            lemma_direct_repeats(ready, head, extra);
        } else {
            lemma_grown_same(again_ready.output);
            lemma_grown_ask(again_ready.output, WriteAsk::Write(head));
            lemma_stopped_grown(ready.output, again_ready.output, later);
        }
    }
}

pub proof fn lemma_write_vectored_grown(writer: Writer, data: Seq<Seq<u8>>)
    ensures
        grown(writer.output, writer.write_vectored(data).writer.output),
{
    let lines = through_last_line(data);
    lemma_grown_same(writer.output);
    lemma_flush_buf_grown(writer);
    if !writer.output.vectored {
        if first_filled(data) is Some {
            lemma_write_grown(writer, first_filled(data)->0);
        }
    } else if lines == 0 {
        let ready = writer.flush_if_completed_line().writer;
        lemma_write_vectored_buffered_grown(ready, data);
        lemma_grown_twice(
            writer.output,
            ready.output,
            ready.write_vectored_buffered(data).writer.output,
        );
    } else {
        let ready = writer.flush_buf().writer;
        let head = data.take(lines as int);
        lemma_grown_ask(ready.output, WriteAsk::WriteVectored(head));
        lemma_grown_twice(writer.output, ready.output, ready.direct_vectored(head).writer.output);
    }
}

/// As [`law_write_repeats`], for several buffers.
pub proof fn law_write_vectored_repeats(
    writer: Writer,
    data: Seq<Seq<u8>>,
    extra: Seq<Result<usize, Error>>,
)
    requires
        answered(writer.output),
    ensures
        repeats(writer.write_vectored(data), more_for(writer, extra).write_vectored(data), extra),
{
    let again = more_for(writer, extra);
    let lines = through_last_line(data);
    let later = again.write_vectored(data).writer.output;
    lemma_flush_buf_repeats(writer, extra);
    if !writer.output.vectored {
        if first_filled(data) is Some {
            law_write_repeats(writer, first_filled(data)->0, extra);
        }
    } else if lines == 0 {
        let ready = writer.flush_if_completed_line().writer;
        let again_ready = again.flush_if_completed_line().writer;
        if answered(ready.output) {
            lemma_write_vectored_buffered_repeats(ready, data, extra);
        } else {
            lemma_grown_same(again_ready.output);
            lemma_write_vectored_buffered_grown(again_ready, data);
            lemma_stopped_grown(ready.output, again_ready.output, later);
        }
    } else {
        let ready = writer.flush_buf().writer;
        let again_ready = again.flush_buf().writer;
        let head = data.take(lines as int);
        if answered(ready.output) {
            lemma_direct_vectored_repeats(ready, head, extra);
        } else {
            lemma_grown_same(again_ready.output);
            lemma_grown_ask(again_ready.output, WriteAsk::WriteVectored(head));
            lemma_stopped_grown(ready.output, again_ready.output, later);
        }
    }
}

/// As [`law_write_repeats`], for a flush.
pub proof fn law_flush_repeats(writer: Writer, extra: Seq<Result<usize, Error>>)
    requires
        answered(writer.output),
    ensures
        repeats(writer.flush(), more_for(writer, extra).flush(), extra),
{
    let again = more_for(writer, extra);
    let ready = writer.flush_buf().writer;
    let again_ready = again.flush_buf().writer;
    lemma_flush_buf_repeats(writer, extra);
    if answered(ready.output) {
        lemma_reply(ready.output, WriteAsk::Flush, extra);
    } else {
        lemma_grown_same(again_ready.output);
        lemma_grown_ask(again_ready.output, WriteAsk::Flush);
        lemma_stopped_grown(ready.output, again_ready.output, again.flush().writer.output);
    }
}

proof fn lemma_write_lines_grown(writer: Writer, data: Seq<u8>)
    ensures
        grown(writer.output, writer.write_lines(data).writer.output),
{
    if writer.buffered.len() == 0 {
        lemma_drain_grown(writer.output, data, false, Fault::WriteBuffer);
    } else {
        let joined = writer.write_all_buffered(data).writer;
        lemma_write_all_buffered_grown(writer, data);
        lemma_flush_buf_grown(joined);
        lemma_grown_twice(writer.output, joined.output, joined.flush_buf().writer.output);
    }
}

proof fn lemma_write_lines_repeats(writer: Writer, data: Seq<u8>, extra: Seq<Result<usize, Error>>)
    requires
        answered(writer.output),
    ensures
        repeats(writer.write_lines(data), more_for(writer, extra).write_lines(data), extra),
{
    let again = more_for(writer, extra);
    if writer.buffered.len() == 0 {
        lemma_drain_repeats(writer.output, data, false, Fault::WriteBuffer, extra);
    } else {
        let joined = writer.write_all_buffered(data).writer;
        let again_joined = again.write_all_buffered(data).writer;
        lemma_write_all_buffered_repeats(writer, data, extra);
        if answered(joined.output) {
            lemma_flush_buf_repeats(joined, extra);
        } else {
            lemma_grown_same(again_joined.output);
            lemma_flush_buf_grown(again_joined);
            lemma_stopped_grown(
                joined.output,
                again_joined.output,
                again.write_lines(data).writer.output,
            );
        }
    }
}

pub proof fn lemma_write_all_grown(writer: Writer, data: Seq<u8>)
    ensures
        grown(writer.output, writer.write_all(data).writer.output),
{
    let lines = through_last(data, NEWLINE);
    let head = data.take(lines as int);
    let tail = data.skip(lines as int);
    let ready = if lines == 0 {
        writer.flush_if_completed_line().writer
    } else {
        writer.write_lines(head).writer
    };
    lemma_grown_same(writer.output);
    lemma_flush_buf_grown(writer);
    lemma_write_lines_grown(writer, head);
    lemma_write_all_buffered_grown(ready, tail);
    lemma_grown_twice(writer.output, ready.output, ready.write_all_buffered(tail).writer.output);
}

/// As [`law_write_repeats`], for writing all of the data.
pub proof fn law_write_all_repeats(writer: Writer, data: Seq<u8>, extra: Seq<Result<usize, Error>>)
    requires
        answered(writer.output),
    ensures
        repeats(writer.write_all(data), more_for(writer, extra).write_all(data), extra),
{
    let again = more_for(writer, extra);
    let lines = through_last(data, NEWLINE);
    let head = data.take(lines as int);
    let tail = data.skip(lines as int);
    lemma_flush_buf_repeats(writer, extra);
    lemma_write_lines_repeats(writer, head, extra);
    let ready = if lines == 0 {
        writer.flush_if_completed_line()
    } else {
        writer.write_lines(head)
    };
    let again_ready = if lines == 0 {
        again.flush_if_completed_line()
    } else {
        again.write_lines(head)
    };
    if answered(ready.writer.output) {
        lemma_write_all_buffered_repeats(ready.writer, tail, extra);
    } else {
        lemma_grown_same(again_ready.writer.output);
        lemma_write_all_buffered_grown(again_ready.writer, tail);
        lemma_stopped_grown(
            ready.writer.output,
            again_ready.writer.output,
            again.write_all(data).writer.output,
        );
    }
}

proof fn lemma_write_pieces_grown(writer: Writer, pieces: Seq<Seq<u8>>)
    ensures
        grown(writer.output, writer.write_pieces(pieces).writer.output),
    decreases pieces.len(),
{
    lemma_grown_same(writer.output);
    if pieces.len() > 0 {
        let first = writer.write_all(pieces[0]).writer;
        let others = pieces.drop_first();
        lemma_write_all_grown(writer, pieces[0]);
        lemma_write_pieces_grown(first, others);
        lemma_grown_twice(writer.output, first.output, first.write_pieces(others).writer.output);
    }
}

/// As [`law_write_repeats`], for formatted output.
pub proof fn law_write_pieces_repeats(
    writer: Writer,
    pieces: Seq<Seq<u8>>,
    extra: Seq<Result<usize, Error>>,
)
    requires
        answered(writer.output),
    ensures
        repeats(writer.write_pieces(pieces), more_for(writer, extra).write_pieces(pieces), extra),
    decreases pieces.len(),
{
    if pieces.len() > 0 {
        let again = more_for(writer, extra);
        let first = writer.write_all(pieces[0]);
        let again_first = again.write_all(pieces[0]);
        let others = pieces.drop_first();
        law_write_all_repeats(writer, pieces[0], extra);
        if answered(first.writer.output) {
            law_write_pieces_repeats(first.writer, others, extra);
        } else {
            lemma_grown_same(again_first.writer.output);
            lemma_write_pieces_grown(again_first.writer, others);
            lemma_stopped_grown(
                first.writer.output,
                again_first.writer.output,
                again.write_pieces(pieces).writer.output,
            );
        }
    }
}

proof fn lemma_drain_vectored_grown(writer: Writer, data: Seq<Seq<u8>>)
    ensures
        grown(writer.output, writer.drain_vectored(data).writer.output),
    decreases writer.output.left(), data.flatten().len(),
{
    lemma_grown_same(writer.output);
    if data.len() > 0 {
        let part = writer.write_vectored(data);
        lemma_write_vectored_grown(writer, data);
        lemma_write_vectored_progress(writer, data);
        match part.result {
            Ok(count) => {
                if count > 0 {
                    lemma_advance(data, count);
                    let rest = advance(data, count);
                    lemma_drain_vectored_grown(part.writer, rest);
                    lemma_grown_twice(
                        writer.output,
                        part.writer.output,
                        part.writer.drain_vectored(rest).writer.output,
                    );
                }
            },
            Err(error) => {
                if error.interrupted() {
                    lemma_drain_vectored_grown(part.writer, data);
                    lemma_grown_twice(
                        writer.output,
                        part.writer.output,
                        part.writer.drain_vectored(data).writer.output,
                    );
                }
            },
        }
    }
}

proof fn lemma_drain_vectored_repeats(
    writer: Writer,
    data: Seq<Seq<u8>>,
    extra: Seq<Result<usize, Error>>,
)
    requires
        answered(writer.output),
    ensures
        repeats(writer.drain_vectored(data), more_for(writer, extra).drain_vectored(data), extra),
    decreases writer.output.left(), data.flatten().len(),
{
    if data.len() > 0 {
        let again = more_for(writer, extra);
        let part = writer.write_vectored(data);
        let again_part = again.write_vectored(data);
        law_write_vectored_repeats(writer, data, extra);
        lemma_write_vectored_progress(writer, data);
        if answered(part.writer.output) {
            match part.result {
                Ok(count) => {
                    if count > 0 {
                        lemma_advance(data, count);
                        lemma_drain_vectored_repeats(part.writer, advance(data, count), extra);
                    }
                },
                Err(error) => {
                    if error.interrupted() {
                        lemma_drain_vectored_repeats(part.writer, data, extra);
                    }
                },
            }
        } else {
            lemma_grown_same(again_part.writer.output);
            lemma_drain_vectored_grown(again_part.writer, data);
            if again_part.result is Ok {
                lemma_drain_vectored_grown(
                    again_part.writer,
                    advance(data, again_part.result->Ok_0),
                );
            }
            lemma_stopped_grown(
                part.writer.output,
                again_part.writer.output,
                again.drain_vectored(data).writer.output,
            );
        }
    }
}

/// As [`law_write_repeats`], for writing all that several buffers hold.
pub proof fn law_write_all_vectored_repeats(
    writer: Writer,
    data: Seq<Seq<u8>>,
    extra: Seq<Result<usize, Error>>,
)
    requires
        answered(writer.output),
    ensures
        repeats(
            writer.write_all_vectored(data),
            more_for(writer, extra).write_all_vectored(data),
            extra,
        ),
{
    lemma_drain_vectored_repeats(writer, advance(data, 0), extra);
}

/// As [`law_write_repeats`], for the end of the process.
pub proof fn law_cleanup_repeats(writer: Writer, extra: Seq<Result<usize, Error>>)
    requires
        answered(writer.output),
    ensures
        ({
            let first = unbuffered(writer);
            let again = unbuffered(more_for(writer, extra));
            if answered(first.output) {
                again == more_for(first, extra)
            } else {
                stopped(first.output, again.output)
            }
        }),
{
    lemma_flush_buf_repeats(writer, extra);
}

/// As [`law_write_repeats`], for one request past all buffers.
pub proof fn law_raw_request_repeats(
    output: Output,
    request: WriteAsk,
    extra: Seq<Result<usize, Error>>,
)
    requires
        answered(output),
    ensures
        ({
            let first = output.ask(request);
            let again = more(output, extra).ask(request);
            if answered(first) {
                &&& again == more(first, extra)
                &&& more(output, extra).reply() == output.reply()
            } else {
                &&& output.reply() == Err::<nat, Error>(Error::Unanswered)
                &&& stopped(first, again)
            }
        }),
{
    lemma_reply(output, request, extra);
}

/// As [`law_write_repeats`], for writing all of the data past all buffers.
pub proof fn law_raw_write_all_repeats(
    output: Output,
    data: Seq<u8>,
    extra: Seq<Result<usize, Error>>,
)
    requires
        answered(output),
    ensures
        repeats_drained(output.write_all(data), more(output, extra).write_all(data), extra),
{
    lemma_drain_repeats(output, data, false, Fault::WriteBuffer, extra);
}

proof fn lemma_raw_drain_vectored_grown(output: Output, data: Seq<Seq<u8>>)
    ensures
        grown(output, output.drain_vectored(data).output),
    decreases output.left(), 1int,
{
    lemma_grown_same(output);
    if data.len() > 0 {
        lemma_grown_ask(output, WriteAsk::WriteVectored(data));
        lemma_raw_drain_vectored_asks(output, data);
        let next = output.ask(WriteAsk::WriteVectored(data));
        lemma_grown_twice(output, next, output.drain_vectored(data).output);
    }
}

/// The first request of writing all that several buffers hold.
proof fn lemma_raw_drain_vectored_asks(output: Output, data: Seq<Seq<u8>>)
    requires
        data.len() > 0,
    ensures
        grown(output.ask(WriteAsk::WriteVectored(data)), output.drain_vectored(data).output),
    decreases output.left(), 0int,
{
    let next = output.ask(WriteAsk::WriteVectored(data));
    lemma_grown_same(next);
    if output.left() > 0 {
        lemma_raw_drain_vectored_grown(next, data);
        if output.reply() is Ok {
            let count = output.reply_within(data.flatten().len())->Ok_0;
            lemma_raw_drain_vectored_grown(next, advance(data, count));
        }
    }
}

proof fn lemma_raw_drain_vectored_repeats(
    output: Output,
    data: Seq<Seq<u8>>,
    extra: Seq<Result<usize, Error>>,
)
    requires
        answered(output),
    ensures
        repeats_drained(
            output.drain_vectored(data),
            more(output, extra).drain_vectored(data),
            extra,
        ),
    decreases output.left(),
{
    if data.len() > 0 {
        let request = WriteAsk::WriteVectored(data);
        let next = output.ask(request);
        let again = more(output, extra);
        lemma_reply(output, request, extra);
        if answered(next) {
            match output.reply_within(data.flatten().len()) {
                Ok(count) => {
                    if count > 0 {
                        lemma_raw_drain_vectored_repeats(next, advance(data, count), extra);
                    }
                },
                Err(error) => {
                    if error.interrupted() {
                        lemma_raw_drain_vectored_repeats(next, data, extra);
                    }
                },
            }
        } else {
            lemma_raw_drain_vectored_asks(again, data);
            lemma_stopped_grown(next, again.ask(request), again.drain_vectored(data).output);
        }
    }
}

/// As [`law_write_repeats`], for writing all that several buffers hold past all buffers.
pub proof fn law_raw_write_all_vectored_repeats(
    output: Output,
    data: Seq<Seq<u8>>,
    extra: Seq<Result<usize, Error>>,
)
    requires
        answered(output),
    ensures
        repeats_drained(
            output.write_all_vectored(data),
            more(output, extra).write_all_vectored(data),
            extra,
        ),
{
    lemma_raw_drain_vectored_repeats(output, advance(data, 0), extra);
}

proof fn lemma_raw_write_pieces_grown(output: Output, pieces: Seq<Seq<u8>>)
    ensures
        grown(output, output.write_pieces(pieces).output),
        grown(output, write_pieces(output, pieces).0),
    decreases pieces.len(),
{
    lemma_grown_same(output);
    if pieces.len() > 0 {
        let first = output.write_all(pieces[0]).output;
        let others = pieces.drop_first();
        lemma_drain_grown(output, pieces[0], false, Fault::WriteBuffer);
        lemma_raw_write_pieces_grown(first, others);
        lemma_grown_twice(output, first, first.write_pieces(others).output);
        lemma_grown_twice(output, first, write_pieces(first, others).0);
    }
}

/// As [`law_write_repeats`], for formatted output past all buffers.
pub proof fn law_raw_write_pieces_repeats(
    output: Output,
    pieces: Seq<Seq<u8>>,
    extra: Seq<Result<usize, Error>>,
)
    requires
        answered(output),
    ensures
        repeats_drained(
            output.write_pieces(pieces),
            more(output, extra).write_pieces(pieces),
            extra,
        ),
        ({
            let first = write_pieces(output, pieces);
            let again = write_pieces(more(output, extra), pieces);
            if answered(first.0) {
                again == (more(first.0, extra), first.1)
            } else {
                &&& first.1 == Err::<(), Error>(Error::Unanswered)
                &&& stopped(first.0, again.0)
            }
        }),
    decreases pieces.len(),
{
    if pieces.len() > 0 {
        let first = output.write_all(pieces[0]);
        let again_first = more(output, extra).write_all(pieces[0]);
        let others = pieces.drop_first();
        law_raw_write_all_repeats(output, pieces[0], extra);
        if answered(first.output) {
            law_raw_write_pieces_repeats(first.output, others, extra);
        } else {
            lemma_grown_same(again_first.output);
            lemma_raw_write_pieces_grown(again_first.output, others);
            lemma_stopped_grown(
                first.output,
                again_first.output,
                more(output, extra).write_pieces(pieces).output,
            );
            lemma_stopped_grown(
                first.output,
                again_first.output,
                write_pieces(more(output, extra), pieces).0,
            );
        }
    }
}

} // verus!
