//! Laws of failed output: nothing fails but for the last answer of the host.
use vstd::prelude::*;

use crate::bytes::{advance, lemma_advance, NEWLINE};
use crate::error::{forgiven, Error, Fault};
use crate::line_ends::lemma_lines_filled;
use crate::line_writer::{
    first_filled, lemma_first_filled, lemma_write_vectored_progress, through_last_line, Writer,
};
use crate::scan::{lemma_through_last, through_last};
use crate::sink::{Output, WriteAsk};
use crate::stderr::write_pieces;

verus! {

/// Whether the last answer of the host is why an operation failed with `error`: it is that error,
/// or it says that nothing was written.
pub open spec fn caused(output: Output, error: Error) -> bool {
    let before = Output { asked: output.asked.drop_last(), ..output };
    &&& output.asked.len() > 0
    &&& before.reply() == Err::<nat, Error>(error) || (before.reply() == Ok::<nat, Error>(0) && (
    error == Error::Fault(Fault::WriteBuffer) || error == Error::Fault(Fault::WriteBuffered)))
}

/// The last answer is the one to the last request.
proof fn lemma_caused_ask(output: Output, request: WriteAsk)
    ensures
        ({
            let next = output.ask(request);
            &&& next.asked.len() > 0
            &&& Output { asked: next.asked.drop_last(), ..next } == output
        }),
{
    assert(output.ask(request).asked.drop_last() =~= output.asked);
}

proof fn lemma_drain_caused(output: Output, data: Seq<u8>, lenient: bool, zero: Fault)
    requires
        zero == Fault::WriteBuffer || zero == Fault::WriteBuffered,
    ensures
        ({
            let drained = output.drain(data, lenient, zero);
            drained.result matches Err(error) ==> caused(drained.output, error)
        }),
    decreases output.left(),
{
    if data.len() > 0 {
        let next = output.ask(WriteAsk::Write(data));
        lemma_caused_ask(output, WriteAsk::Write(data));
        let reply = output.reply_within(data.len());
        match if lenient {
            forgiven(reply, data.len())
        } else {
            reply
        } {
            Ok(count) => {
                if count > 0 {
                    lemma_drain_caused(next, data.skip(count as int), lenient, zero);
                }
            },
            Err(error) => {
                if error.interrupted() {
                    lemma_drain_caused(next, data, lenient, zero);
                }
            },
        }
    }
}

proof fn lemma_flush_buf_caused(writer: Writer)
    ensures
        writer.flush_buf().result matches Err(error) ==> caused(
            writer.flush_buf().writer.output,
            error,
        ),
{
    lemma_drain_caused(writer.output, writer.buffered, true, Fault::WriteBuffered);
}

proof fn lemma_write_all_buffered_caused(writer: Writer, data: Seq<u8>)
    ensures
        writer.write_all_buffered(data).result matches Err(error) ==> caused(
            writer.write_all_buffered(data).writer.output,
            error,
        ),
{
    lemma_flush_buf_caused(writer);
    let room = writer.make_room(data.len()).writer;
    lemma_drain_caused(room.output, data, false, Fault::WriteBuffer);
}

/// A write fails only because of the last answer of the host, and takes nothing of some data
/// without failing only if the host took nothing.
pub proof fn law_write_fails(writer: Writer, data: Seq<u8>)
    ensures
        ({
            let done = writer.write(data);
            match done.result {
                Ok(count) => count == 0 && data.len() > 0 ==> caused(
                    done.writer.output,
                    Error::Fault(Fault::WriteBuffer),
                ),
                Err(error) => caused(done.writer.output, error),
            }
        }),
{
    let lines = through_last(data, NEWLINE);
    lemma_through_last(data, NEWLINE);
    lemma_flush_buf_caused(writer);
    if lines == 0 {
        let ready = writer.flush_if_completed_line().writer;
        lemma_flush_buf_caused(ready);
        let room = ready.make_room(data.len()).writer;
        lemma_caused_ask(room.output, WriteAsk::Write(data));
    } else {
        let ready = writer.flush_buf().writer;
        lemma_caused_ask(ready.output, WriteAsk::Write(data.take(lines as int)));
    }
}

/// As [`law_write_fails`], for several buffers.
pub proof fn law_write_vectored_fails(writer: Writer, data: Seq<Seq<u8>>)
    ensures
        ({
            let done = writer.write_vectored(data);
            match done.result {
                Ok(count) => count == 0 && data.flatten().len() > 0 ==> caused(
                    done.writer.output,
                    Error::Fault(Fault::WriteBuffer),
                ),
                Err(error) => caused(done.writer.output, error),
            }
        }),
{
    let lines = through_last_line(data);
    lemma_flush_buf_caused(writer);
    if !writer.output.vectored {
        lemma_first_filled(data);
        if first_filled(data) is Some {
            law_write_fails(writer, first_filled(data)->0);
        }
    } else if lines == 0 {
        let ready = writer.flush_if_completed_line().writer;
        lemma_flush_buf_caused(ready);
        let room = ready.make_room(data.flatten().len()).writer;
        lemma_caused_ask(room.output, WriteAsk::WriteVectored(data));
    } else {
        let ready = writer.flush_buf().writer;
        lemma_lines_filled(data);
        lemma_caused_ask(ready.output, WriteAsk::WriteVectored(data.take(lines as int)));
    }
}

/// As [`law_write_fails`], for a flush.
pub proof fn law_flush_fails(writer: Writer)
    ensures
        writer.flush().result matches Err(error) ==> caused(writer.flush().writer.output, error),
{
    lemma_flush_buf_caused(writer);
    lemma_caused_ask(writer.flush_buf().writer.output, WriteAsk::Flush);
}

/// As [`law_write_fails`], for writing all of the data.
pub proof fn law_write_all_fails(writer: Writer, data: Seq<u8>)
    ensures
        writer.write_all(data).result matches Err(error) ==> caused(
            writer.write_all(data).writer.output,
            error,
        ),
{
    let lines = through_last(data, NEWLINE);
    let head = data.take(lines as int);
    let tail = data.skip(lines as int);
    lemma_flush_buf_caused(writer);
    lemma_drain_caused(writer.output, head, false, Fault::WriteBuffer);
    lemma_write_all_buffered_caused(writer, head);
    lemma_flush_buf_caused(writer.write_all_buffered(head).writer);
    let ready = if lines == 0 {
        writer.flush_if_completed_line().writer
    } else {
        writer.write_lines(head).writer
    };
    lemma_write_all_buffered_caused(ready, tail);
}

/// As [`law_write_fails`], for formatted output.
pub proof fn law_write_pieces_fails(writer: Writer, pieces: Seq<Seq<u8>>)
    ensures
        writer.write_pieces(pieces).result matches Err(error) ==> caused(
            writer.write_pieces(pieces).writer.output,
            error,
        ),
    decreases pieces.len(),
{
    if pieces.len() > 0 {
        law_write_all_fails(writer, pieces[0]);
        law_write_pieces_fails(writer.write_all(pieces[0]).writer, pieces.drop_first());
    }
}

proof fn lemma_drain_vectored_fails(writer: Writer, data: Seq<Seq<u8>>)
    requires
        data.len() > 0 ==> data.flatten().len() > 0,
    ensures
        writer.drain_vectored(data).result matches Err(error) ==> caused(
            writer.drain_vectored(data).writer.output,
            error,
        ),
    decreases writer.output.left(), data.flatten().len(),
{
    if data.len() > 0 {
        let part = writer.write_vectored(data);
        law_write_vectored_fails(writer, data);
        lemma_write_vectored_progress(writer, data);
        match part.result {
            Ok(count) => {
                if count > 0 {
                    lemma_advance(data, count);
                    lemma_drain_vectored_fails(part.writer, advance(data, count));
                }
            },
            Err(error) => {
                if error.interrupted() {
                    lemma_drain_vectored_fails(part.writer, data);
                }
            },
        }
    }
}

/// As [`law_write_fails`], for writing all that several buffers hold.
pub proof fn law_write_all_vectored_fails(writer: Writer, data: Seq<Seq<u8>>)
    ensures
        writer.write_all_vectored(data).result matches Err(error) ==> caused(
            writer.write_all_vectored(data).writer.output,
            error,
        ),
{
    lemma_advance(data, 0);
    assert(data.flatten().skip(0) =~= data.flatten());
    lemma_drain_vectored_fails(writer, advance(data, 0));
}

proof fn lemma_raw_drain_vectored_fails(output: Output, data: Seq<Seq<u8>>)
    requires
        data.len() > 0 ==> data.flatten().len() > 0,
    ensures
        output.drain_vectored(data).result matches Err(error) ==> caused(
            output.drain_vectored(data).output,
            error,
        ),
    decreases output.left(),
{
    if data.len() > 0 {
        let next = output.ask(WriteAsk::WriteVectored(data));
        lemma_caused_ask(output, WriteAsk::WriteVectored(data));
        match output.reply_within(data.flatten().len()) {
            Ok(count) => {
                if count > 0 {
                    lemma_advance(data, count);
                    lemma_raw_drain_vectored_fails(next, advance(data, count));
                }
            },
            Err(error) => {
                if error.interrupted() {
                    lemma_raw_drain_vectored_fails(next, data);
                }
            },
        }
    }
}

/// As [`law_write_fails`], for writing all data past all buffers.
pub proof fn law_raw_fails(output: Output, data: Seq<u8>, several: Seq<Seq<u8>>)
    ensures
        output.write_all(data).result matches Err(error) ==> caused(
            output.write_all(data).output,
            error,
        ),
        output.write_all_vectored(several).result matches Err(error) ==> caused(
            output.write_all_vectored(several).output,
            error,
        ),
        output.write_pieces(several).result matches Err(error) ==> caused(
            output.write_pieces(several).output,
            error,
        ),
        write_pieces(output, several).1 matches Err(error) ==> caused(
            write_pieces(output, several).0,
            error,
        ),
    decreases several.len(),
{
    lemma_drain_caused(output, data, false, Fault::WriteBuffer);
    lemma_advance(several, 0);
    assert(several.flatten().skip(0) =~= several.flatten());
    lemma_raw_drain_vectored_fails(output, advance(several, 0));
    if several.len() > 0 {
        lemma_drain_caused(output, several[0], false, Fault::WriteBuffer);
        law_raw_fails(output.write_all(several[0]).output, data, several.drop_first());
    }
}

} // verus!
