//! Laws of output to a stream that is not open: a program does not notice.
use vstd::prelude::*;

use crate::bytes::{advance, lemma_advance, NEWLINE};
use crate::error::{forgiven, Error, Fault, EBADF};
use crate::line_ends::lemma_lines_filled;
use crate::line_writer::{
    first_filled, lemma_first_filled, lemma_write_vectored_progress, through_last_line, Writer,
};
use crate::output_laws::lemma_write_all_buffered;
use crate::output_replay_laws::{
    grown, lemma_drain_grown, lemma_write_all_grown, lemma_write_vectored_grown,
};
use crate::scan::{lemma_through_last, through_last};
use crate::sink::{Output, WriteAsk};
use crate::stderr::write_pieces;

verus! {

/// Whether the host answers the next `count` requests that the stream is not open.
pub open spec fn closed(output: Output, count: nat) -> bool {
    &&& output.left() >= count
    &&& forall|i: int|
        output.asked.len() <= i < output.answers.len() ==> #[trigger] output.answers[i] == Err::<
            usize,
            Error,
        >(Error::Os(EBADF))
}

/// A closed stream takes all data at one request.
proof fn lemma_drain_closed(output: Output, data: Seq<u8>, lenient: bool, zero: Fault, count: nat)
    requires
        closed(output, count),
        count > 0,
    ensures
        ({
            let drained = output.drain(data, lenient, zero);
            &&& forgiven(drained.result, ()) is Ok
            &&& lenient ==> drained.result is Ok && drained.rest.len() == 0
            &&& closed(drained.output, (count - 1) as nat)
        }),
{
    if data.len() > 0 {
        let next = output.ask(WriteAsk::Write(data));
        assert(output.answers[output.asked.len() as int] == Err::<usize, Error>(Error::Os(EBADF)));
        if lenient {
            assert(output.drain(data, lenient, zero) == next.drain(
                data.skip(data.len() as int),
                lenient,
                zero,
            ));
        }
    }
}

/// A program whose standard output is closed does not notice: what it writes succeeds.
pub proof fn law_closed_output(writer: Writer, data: Seq<u8>)
    requires
        writer.fits(),
        closed(writer.output, 4),
    ensures
        writer.write(data).result is Ok,
        writer.write_all(data).result is Ok,
        writer.flush().result is Ok,
{
    let lines = through_last(data, NEWLINE);
    let head = data.take(lines as int);
    let tail = data.skip(lines as int);
    lemma_through_last(data, NEWLINE);
    lemma_drain_closed(writer.output, writer.buffered, true, Fault::WriteBuffered, 4);
    let flushed = writer.flush_buf().writer;
    assert(flushed.output.answers[flushed.output.asked.len() as int] == Err::<usize, Error>(
        Error::Os(EBADF),
    ));
    lemma_drain_closed(flushed.output, flushed.buffered, true, Fault::WriteBuffered, 3);
    lemma_closed_write_all_buffered(writer, data, 4);
    if lines == 0 {
        let ready = writer.flush_if_completed_line().writer;
        let room = ready.make_room(data.len()).writer;
        lemma_drain_closed(ready.output, ready.buffered, true, Fault::WriteBuffered, 3);
        assert(room.output.answers[room.output.asked.len() as int] == Err::<usize, Error>(
            Error::Os(EBADF),
        ));
        lemma_closed_write_all_buffered(ready, data, 3);
        assert(data.skip(0) =~= data);
    } else {
        let ready = writer.write_lines(head).writer;
        if writer.buffered.len() == 0 {
            lemma_drain_closed(writer.output, head, false, Fault::WriteBuffer, 4);
            lemma_closed_write_all_buffered(ready, tail, 3);
        } else {
            lemma_closed_write_all_buffered(writer, head, 4);
            let joined = writer.write_all_buffered(head).writer;
            lemma_write_all_buffered(writer, head);
            lemma_drain_closed(joined.output, joined.buffered, true, Fault::WriteBuffered, 2);
        }
    }
}

/// Buffering data succeeds on a closed stream, at two requests at most.
proof fn lemma_closed_write_all_buffered(writer: Writer, data: Seq<u8>, count: nat)
    requires
        closed(writer.output, count),
        count >= 2,
    ensures
        writer.write_all_buffered(data).result is Ok,
        closed(writer.write_all_buffered(data).writer.output, (count - 2) as nat),
{
    lemma_drain_closed(writer.output, writer.buffered, true, Fault::WriteBuffered, count);
    let room = writer.make_room(data.len()).writer;
    lemma_drain_closed(room.output, data, false, Fault::WriteBuffer, (count - 1) as nat);
}

/// Whether an operation succeeded, or has to be repeated with more answers.
pub open spec fn unfailing<T>(result: Result<T, Error>) -> bool {
    result matches Err(error) ==> error == Error::Unanswered
}

/// A stream that is not open stays so.
proof fn lemma_closed_grown(before: Output, now: Output)
    requires
        closed(before, 0),
        grown(before, now),
    ensures
        closed(now, 0),
{
}

/// Writing until all is taken does not fail on a closed stream.
proof fn lemma_drain_unfailing(output: Output, data: Seq<u8>, lenient: bool, zero: Fault)
    requires
        closed(output, 0),
    ensures
        ({
            let drained = output.drain(data, lenient, zero);
            &&& unfailing(forgiven(drained.result, ()))
            &&& lenient ==> unfailing(drained.result)
            &&& closed(drained.output, 0)
        }),
{
    lemma_drain_grown(output, data, lenient, zero);
    lemma_closed_grown(output, output.drain(data, lenient, zero).output);
    if output.left() > 0 {
        assert(closed(output, 1));
        lemma_drain_closed(output, data, lenient, zero, 1);
    }
}

/// One request does not fail on a closed stream.
proof fn lemma_reply_unfailing(output: Output, len: nat)
    requires
        closed(output, 0),
    ensures
        match forgiven(output.reply_within(len), len) {
            Ok(count) => count == len,
            Err(error) => error == Error::Unanswered,
        },
{
    if output.left() > 0 {
        assert(output.answers[output.asked.len() as int] == Err::<usize, Error>(Error::Os(EBADF)));
    }
}

/// A write to a closed stream takes something, if there is anything to take.
proof fn lemma_closed_write(writer: Writer, data: Seq<u8>)
    requires
        closed(writer.output, 0),
    ensures
        unfailing(writer.write(data).result),
        data.len() > 0 ==> writer.write(data).result != Ok::<nat, Error>(0),
{
    let lines = through_last(data, NEWLINE);
    lemma_through_last(data, NEWLINE);
    lemma_drain_unfailing(writer.output, writer.buffered, true, Fault::WriteBuffered);
    if lines == 0 {
        let ready = writer.flush_if_completed_line().writer;
        lemma_drain_unfailing(ready.output, ready.buffered, true, Fault::WriteBuffered);
        lemma_reply_unfailing(ready.make_room(data.len()).writer.output, data.len());
    } else {
        let ready = writer.flush_buf().writer;
        lemma_reply_unfailing(ready.output, lines);
    }
}

/// As [`lemma_closed_write`], for several buffers.
proof fn lemma_closed_write_vectored(writer: Writer, data: Seq<Seq<u8>>)
    requires
        closed(writer.output, 0),
    ensures
        unfailing(writer.write_vectored(data).result),
        data.flatten().len() > 0 ==> writer.write_vectored(data).result != Ok::<nat, Error>(0),
{
    let lines = through_last_line(data);
    lemma_drain_unfailing(writer.output, writer.buffered, true, Fault::WriteBuffered);
    if !writer.output.vectored {
        lemma_first_filled(data);
        if first_filled(data) is Some {
            lemma_closed_write(writer, first_filled(data)->0);
        }
    } else if lines == 0 {
        let len = data.flatten().len();
        let ready = writer.flush_if_completed_line().writer;
        lemma_drain_unfailing(ready.output, ready.buffered, true, Fault::WriteBuffered);
        lemma_reply_unfailing(ready.make_room(len).writer.output, len);
    } else {
        let ready = writer.flush_buf().writer;
        lemma_lines_filled(data);
        lemma_reply_unfailing(ready.output, data.take(lines as int).flatten().len());
    }
}

/// Writing all that several buffers hold to a closed stream does not fail.
proof fn lemma_closed_drain_vectored(writer: Writer, data: Seq<Seq<u8>>)
    requires
        closed(writer.output, 0),
        data.len() > 0 ==> data.flatten().len() > 0,
    ensures
        unfailing(writer.drain_vectored(data).result),
    decreases writer.output.left(), data.flatten().len(),
{
    if data.len() > 0 {
        let part = writer.write_vectored(data);
        lemma_closed_write_vectored(writer, data);
        lemma_write_vectored_progress(writer, data);
        lemma_write_vectored_grown(writer, data);
        lemma_closed_grown(writer.output, part.writer.output);
        if part.result is Ok {
            let count = part.result->Ok_0;
            lemma_advance(data, count);
            lemma_closed_drain_vectored(part.writer, advance(data, count));
        }
    }
}

/// No write to a closed standard output fails, however many answers there are.
pub proof fn law_closed_never_fails(writer: Writer, data: Seq<u8>, several: Seq<Seq<u8>>)
    requires
        closed(writer.output, 0),
    ensures
        unfailing(writer.write(data).result),
        unfailing(writer.write_vectored(several).result),
        unfailing(writer.flush().result),
        unfailing(writer.write_all(data).result),
        unfailing(writer.write_all_vectored(several).result),
        unfailing(writer.write_pieces(several).result),
{
    lemma_closed_write(writer, data);
    lemma_closed_write_vectored(writer, several);
    lemma_drain_unfailing(writer.output, writer.buffered, true, Fault::WriteBuffered);
    lemma_reply_unfailing(writer.flush_buf().writer.output, 0);
    lemma_closed_write_all(writer, data);
    lemma_advance(several, 0);
    assert(several.flatten().skip(0) =~= several.flatten());
    lemma_closed_drain_vectored(writer, advance(several, 0));
    lemma_closed_write_pieces(writer, several);
}

proof fn lemma_closed_buffered(writer: Writer, data: Seq<u8>)
    requires
        closed(writer.output, 0),
    ensures
        unfailing(writer.write_all_buffered(data).result),
        closed(writer.write_all_buffered(data).writer.output, 0),
{
    let room = writer.make_room(data.len()).writer;
    lemma_drain_unfailing(writer.output, writer.buffered, true, Fault::WriteBuffered);
    lemma_drain_unfailing(room.output, data, false, Fault::WriteBuffer);
}

proof fn lemma_closed_write_all(writer: Writer, data: Seq<u8>)
    requires
        closed(writer.output, 0),
    ensures
        unfailing(writer.write_all(data).result),
{
    let lines = through_last(data, NEWLINE);
    let head = data.take(lines as int);
    let tail = data.skip(lines as int);
    lemma_drain_unfailing(writer.output, writer.buffered, true, Fault::WriteBuffered);
    if lines == 0 {
        lemma_closed_buffered(writer.flush_if_completed_line().writer, tail);
    } else {
        lemma_drain_unfailing(writer.output, head, false, Fault::WriteBuffer);
        lemma_closed_buffered(writer, head);
        let joined = writer.write_all_buffered(head).writer;
        lemma_drain_unfailing(joined.output, joined.buffered, true, Fault::WriteBuffered);
        lemma_closed_buffered(writer.write_lines(head).writer, tail);
    }
}

proof fn lemma_closed_write_pieces(writer: Writer, pieces: Seq<Seq<u8>>)
    requires
        closed(writer.output, 0),
    ensures
        unfailing(writer.write_pieces(pieces).result),
    decreases pieces.len(),
{
    if pieces.len() > 0 {
        let first = writer.write_all(pieces[0]).writer;
        lemma_closed_write_all(writer, pieces[0]);
        lemma_write_all_grown(writer, pieces[0]);
        lemma_closed_grown(writer.output, first.output);
        lemma_closed_write_pieces(first, pieces.drop_first());
    }
}

/// No write to a closed standard error fails, however many answers there are, and one that got an
/// answer took everything.
pub proof fn law_closed_raw(output: Output, data: Seq<u8>, several: Seq<Seq<u8>>)
    requires
        closed(output, 0),
    ensures
        output.left() > 0 ==> {
            &&& forgiven(output.reply_within(data.len()), data.len()) == Ok::<nat, Error>(
                data.len(),
            )
            &&& forgiven(output.reply_flush(), ()) == Ok::<(), Error>(())
        },
        unfailing(forgiven(output.reply_within(data.len()), data.len())),
        unfailing(forgiven(output.reply_flush(), ())),
        unfailing(forgiven(output.write_all(data).result, ())),
        unfailing(forgiven(output.write_all_vectored(several).result, ())),
        unfailing(write_pieces(output, several).1),
    decreases several.len(),
{
    lemma_reply_unfailing(output, data.len());
    lemma_reply_unfailing(output, 0);
    lemma_drain_unfailing(output, data, false, Fault::WriteBuffer);
    if several.len() > 0 {
        lemma_drain_unfailing(output, several[0], false, Fault::WriteBuffer);
        law_closed_raw(output.write_all(several[0]).output, data, several.drop_first());
    }
}

} // verus!
