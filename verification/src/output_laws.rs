//! Laws of output: no byte is lost, doubled or moved on its way to the host.
use vstd::prelude::*;

use crate::bytes::{advance, least, lemma_advance, lemma_flatten_prefix, NEWLINE};
use crate::error::{forgiven, Error, Fault};
use crate::line_ends::{lemma_drain_vectored_ends_lines, lemma_write_pieces_ends_lines};
use crate::line_writer::{
    first_filled, lemma_drain_progress, lemma_through_last_line, lemma_write_vectored_progress,
    through_last_line, Done, Writer,
};
use crate::scan::{lemma_through_last, through_last};
use crate::sink::{Output, WriteAsk};
use crate::stderr::write_pieces;
use crate::stdout::unbuffered;

verus! {

/// The bytes that the host takes at a request to which it answers `reply`. A stream that is not
/// open swallows all that it is given.
pub open spec fn accepted(request: WriteAsk, reply: Result<nat, Error>) -> Seq<u8> {
    let data = match request {
        WriteAsk::Write(data) => data,
        WriteAsk::WriteVectored(data) => data.flatten(),
        WriteAsk::Flush => Seq::empty(),
    };
    match reply {
        Ok(count) => data.take(least(count, data.len()) as int),
        Err(error) => if error.ebadf() {
            data
        } else {
            Seq::empty()
        },
    }
}

/// All the bytes that the host has taken so far, in order.
pub open spec fn delivered(output: Output) -> Seq<u8>
    decreases output.asked.len(),
{
    if output.asked.len() == 0 {
        Seq::empty()
    } else {
        let before = Output { asked: output.asked.drop_last(), ..output };
        delivered(before) + accepted(output.asked.last(), before.reply())
    }
}

/// All the bytes that a writer has taken so far, in order: those that the host has, and those
/// that wait in the buffer.
pub open spec fn stream(writer: Writer) -> Seq<u8> {
    delivered(writer.output) + writer.buffered
}

/// Whether `now` is `before` and some of `data` from the start.
pub open spec fn extended(before: Seq<u8>, now: Seq<u8>, data: Seq<u8>) -> bool {
    exists|count: int| 0 <= count <= data.len() && now == before + #[trigger] data.take(count)
}

/// A request adds to the delivered bytes what the host takes of it.
pub proof fn lemma_delivered_ask(output: Output, request: WriteAsk)
    ensures
        delivered(output.ask(request)) == delivered(output) + accepted(request, output.reply()),
{
    let next = output.ask(request);
    assert(next.asked.drop_last() =~= output.asked);
    assert(Output { asked: next.asked.drop_last(), ..next } == output);
}

/// Writing until all is taken delivers the data, but for what is left over.
pub proof fn lemma_drain_delivered(output: Output, data: Seq<u8>, lenient: bool, zero: Fault)
    ensures
        ({
            let drained = output.drain(data, lenient, zero);
            let over = if drained.result matches Err(error) && error.ebadf() {
                Seq::empty()
            } else {
                drained.rest
            };
            &&& delivered(drained.output) + over == delivered(output) + data
            &&& lenient ==> !(drained.result matches Err(error) && error.ebadf())
        }),
    decreases output.left(),
{
    let drained = output.drain(data, lenient, zero);
    if data.len() > 0 {
        let request = WriteAsk::Write(data);
        let next = output.ask(request);
        let took = accepted(request, output.reply());
        lemma_delivered_ask(output, request);
        let reply = output.reply_within(data.len());
        let answer = if lenient {
            forgiven(reply, data.len())
        } else {
            reply
        };
        match answer {
            Ok(count) => {
                assert(took =~= data.take(count as int));
                assert(data.take(count as int) + data.skip(count as int) =~= data);
                if count > 0 {
                    lemma_drain_delivered(next, data.skip(count as int), lenient, zero);
                    assert((delivered(output) + took) + data.skip(count as int) =~= delivered(
                        output,
                    ) + data);
                } else {
                    assert(delivered(next) + data =~= delivered(output) + data);
                }
            },
            Err(error) => {
                if error.interrupted() {
                    assert(delivered(next) =~= delivered(output));
                    lemma_drain_delivered(next, data, lenient, zero);
                } else if error.ebadf() {
                    assert(delivered(next) + Seq::<u8>::empty() =~= delivered(output) + data);
                } else {
                    assert(delivered(next) =~= delivered(output));
                }
            },
        }
    }
}

/// Passing on the buffer moves its bytes, and changes nothing else.
pub proof fn law_flush_buf(writer: Writer)
    ensures
        ({
            let done = writer.flush_buf();
            &&& stream(done.writer) == stream(writer)
            &&& done.result is Ok ==> done.writer.buffered.len() == 0
            &&& done.writer.capacity == writer.capacity
            &&& writer.fits() ==> done.writer.fits()
        }),
{
    lemma_drain_delivered(writer.output, writer.buffered, true, Fault::WriteBuffered);
    lemma_drain_progress(writer.output, writer.buffered, true, Fault::WriteBuffered);
}

/// One request past the buffer delivers what it reports, provided that the buffer is empty.
proof fn lemma_direct(writer: Writer, data: Seq<u8>)
    requires
        writer.buffered.len() == 0,
    ensures
        ({
            let done = writer.direct(data);
            stream(done.writer) == stream(writer) + (match done.result {
                Ok(count) => data.take(count as int),
                Err(_) => Seq::empty(),
            })
        }),
{
    lemma_delivered_ask(writer.output, WriteAsk::Write(data));
    let done = writer.direct(data);
    if done.result is Ok {
        assert(accepted(WriteAsk::Write(data), writer.output.reply()) =~= data.take(
            done.result->Ok_0 as int,
        ));
    }
    assert(stream(writer) =~= delivered(writer.output));
    assert(stream(done.writer) =~= delivered(done.writer.output));
}

/// As [`lemma_direct`], for several buffers.
proof fn lemma_direct_vectored(writer: Writer, data: Seq<Seq<u8>>)
    requires
        writer.buffered.len() == 0,
    ensures
        ({
            let done = writer.direct_vectored(data);
            stream(done.writer) == stream(writer) + (match done.result {
                Ok(count) => data.flatten().take(count as int),
                Err(_) => Seq::empty(),
            })
        }),
{
    lemma_delivered_ask(writer.output, WriteAsk::WriteVectored(data));
    let done = writer.direct_vectored(data);
    if done.result is Ok {
        assert(accepted(WriteAsk::WriteVectored(data), writer.output.reply())
            =~= data.flatten().take(done.result->Ok_0 as int));
    }
    assert(stream(writer) =~= delivered(writer.output));
    assert(stream(done.writer) =~= delivered(done.writer.output));
}

/// Writing all past the buffer delivers all, or some from the start where it fails.
proof fn lemma_direct_all(writer: Writer, data: Seq<u8>)
    requires
        writer.buffered.len() == 0,
    ensures
        ({
            let done = writer.direct_all(data);
            match done.result {
                Ok(_) => stream(done.writer) == stream(writer) + data,
                Err(_) => extended(stream(writer), stream(done.writer), data),
            }
        }),
{
    lemma_drain_delivered(writer.output, data, false, Fault::WriteBuffer);
    lemma_drain_progress(writer.output, data, false, Fault::WriteBuffer);
    let drained = writer.output.write_all(data);
    let done = writer.direct_all(data);
    assert(stream(writer) =~= delivered(writer.output));
    assert(stream(done.writer) =~= delivered(done.writer.output));
    if done.result is Err {
        let count = data.len() - drained.rest.len();
        assert(stream(done.writer) =~= stream(writer) + data.take(count)) by {
            let whole = delivered(writer.output) + data;
            assert(whole == delivered(drained.output) + drained.rest);
            assert(whole.take(delivered(drained.output).len() as int) =~= delivered(
                drained.output,
            ));
            assert(whole.take(delivered(writer.output).len() + count) =~= delivered(writer.output)
                + data.take(count));
        }
    } else {
        assert(delivered(drained.output) + Seq::<u8>::empty() =~= delivered(drained.output));
    }
}

/// The writer takes what fits, in the buffer.
proof fn lemma_push(writer: Writer, data: Seq<u8>)
    ensures
        stream(writer.push(data)) == stream(writer) + data,
{
    assert(stream(writer.push(data)) =~= stream(writer) + data);
}

/// Room is made without changing the stream. After a success, data that is as large as the buffer
/// finds it empty.
proof fn lemma_make_room(writer: Writer, len: nat)
    ensures
        ({
            let room = writer.make_room(len);
            &&& stream(room.writer) == stream(writer)
            &&& room.writer.capacity == writer.capacity
            &&& writer.fits() ==> room.writer.fits()
            &&& writer.fits() && room.result is Ok ==> {
                ||| len >= writer.capacity && room.writer.buffered.len() == 0
                ||| len < writer.capacity && room.writer.buffered.len() + len
                    <= writer.capacity
            }
        }),
{
    law_flush_buf(writer);
}

/// Buffering data takes what it reports.
proof fn lemma_write_buffered(writer: Writer, data: Seq<u8>)
    requires
        writer.fits(),
    ensures
        ({
            let done = writer.write_buffered(data);
            &&& done.writer.fits() && done.writer.capacity == writer.capacity
            &&& stream(done.writer) == stream(writer) + (match done.result {
                Ok(count) => data.take(count as int),
                Err(_) => Seq::empty(),
            })
        }),
{
    lemma_make_room(writer, data.len());
    let room = writer.make_room(data.len());
    assert(stream(writer) + Seq::<u8>::empty() =~= stream(writer));
    if room.result is Ok {
        if data.len() >= writer.capacity {
            lemma_direct(room.writer, data);
        } else {
            lemma_push(room.writer, data);
            assert(data.take(data.len() as int) =~= data);
        }
    }
}

/// As [`lemma_write_buffered`], for several buffers.
proof fn lemma_write_vectored_buffered(writer: Writer, data: Seq<Seq<u8>>)
    requires
        writer.fits(),
    ensures
        ({
            let done = writer.write_vectored_buffered(data);
            &&& done.writer.fits() && done.writer.capacity == writer.capacity
            &&& stream(done.writer) == stream(writer) + (match done.result {
                Ok(count) => data.flatten().take(count as int),
                Err(_) => Seq::empty(),
            })
        }),
{
    let len = data.flatten().len();
    lemma_make_room(writer, len);
    let room = writer.make_room(len);
    assert(stream(writer) + Seq::<u8>::empty() =~= stream(writer));
    if room.result is Ok {
        if len >= writer.capacity {
            lemma_direct_vectored(room.writer, data);
        } else {
            lemma_push(room.writer, data.flatten());
            assert(data.flatten().take(len as int) =~= data.flatten());
        }
    }
}

/// Nothing more is nothing taken.
proof fn lemma_not_extended(stream: Seq<u8>, data: Seq<u8>)
    ensures
        extended(stream, stream, data),
{
    assert(stream =~= stream + data.take(0));
}

/// Buffering all of the data takes all, or some from the start where it fails.
pub proof fn lemma_write_all_buffered(writer: Writer, data: Seq<u8>)
    requires
        writer.fits(),
    ensures
        ({
            let done = writer.write_all_buffered(data);
            &&& done.writer.fits() && done.writer.capacity == writer.capacity
            &&& match done.result {
                Ok(_) => stream(done.writer) == stream(writer) + data,
                Err(_) => extended(stream(writer), stream(done.writer), data),
            }
            &&& done.result is Ok && data.len() >= writer.capacity ==> done.writer.buffered.len()
                == 0
        }),
{
    lemma_make_room(writer, data.len());
    let room = writer.make_room(data.len());
    lemma_not_extended(stream(writer), data);
    if room.result is Ok {
        if data.len() >= writer.capacity {
            lemma_direct_all(room.writer, data);
        } else {
            lemma_push(room.writer, data);
        }
    }
}

/// Filling the buffer takes what fits.
proof fn lemma_fit(writer: Writer, data: Seq<u8>)
    requires
        writer.fits(),
    ensures
        writer.fit(data).fits(),
        writer.fit(data).capacity == writer.capacity,
        stream(writer.fit(data)) == stream(writer) + data.take(
            least(writer.spare(), data.len()) as int,
        ),
{
    lemma_push(writer, data.take(least(writer.spare(), data.len()) as int));
}

/// A write takes exactly the bytes that it reports, after all that was written before; one that
/// fails takes none. The buffer never holds more than fits.
pub proof fn law_write(writer: Writer, data: Seq<u8>)
    requires
        writer.fits(),
    ensures
        ({
            let done = writer.write(data);
            &&& done.writer.fits() && done.writer.capacity == writer.capacity
            &&& match done.result {
                Ok(count) => count <= data.len() && stream(done.writer) == stream(writer)
                    + data.take(count as int),
                Err(_) => stream(done.writer) == stream(writer),
            }
        }),
{
    let lines = through_last(data, NEWLINE);
    lemma_through_last(data, NEWLINE);
    law_flush_buf(writer);
    let done = writer.write(data);
    if lines == 0 {
        let ready = writer.flush_if_completed_line();
        if ready.result is Ok {
            lemma_write_buffered(ready.writer, data);
            assert(stream(writer) + Seq::<u8>::empty() =~= stream(writer));
        }
    } else {
        let ready = writer.flush_buf();
        if ready.result is Ok {
            let head = data.take(lines as int);
            let sent = ready.writer.direct(head);
            lemma_direct(ready.writer, head);
            assert(stream(writer) + Seq::<u8>::empty() =~= stream(writer));
            if sent.result is Ok {
                let flushed = sent.result->Ok_0;
                assert(head.take(flushed as int) =~= data.take(flushed as int));
                if flushed > 0 {
                    let tail = sent.writer.tail_to_buffer(data, lines, flushed);
                    let more = least(sent.writer.spare(), tail.len());
                    if flushed < lines && lines - flushed > sent.writer.capacity {
                        let fitting = data.subrange(
                            flushed as int,
                            (flushed + sent.writer.capacity) as int,
                        );
                        lemma_through_last(fitting, NEWLINE);
                    }
                    assert(tail =~= data.subrange(flushed as int, (flushed + tail.len()) as int));
                    lemma_fit(sent.writer, tail);
                    assert(data.take(flushed as int) + tail.take(more as int) =~= data.take(
                        (flushed + more) as int,
                    ));
                    assert((stream(writer) + data.take(flushed as int)) + tail.take(more as int)
                        =~= stream(writer) + data.take((flushed + more) as int));
                }
            }
        }
    }
}

/// The first buffer that is not empty comes first when all are joined.
proof fn lemma_first_filled_first(data: Seq<Seq<u8>>)
    ensures
        match first_filled(data) {
            Some(first) => first.len() <= data.flatten().len() && data.flatten().take(
                first.len() as int,
            ) == first,
            None => data.flatten().len() == 0,
        },
    decreases data.len(),
{
    if data.len() > 0 {
        if data[0].len() > 0 {
            assert(data.flatten().take(data[0].len() as int) =~= data[0]);
        } else {
            lemma_first_filled_first(data.drop_first());
            assert(data.flatten() =~= data.drop_first().flatten());
        }
    }
}

/// A write of several buffers takes exactly the bytes that it reports, after all that was written
/// before; one that fails takes none.
pub proof fn law_write_vectored(writer: Writer, data: Seq<Seq<u8>>)
    requires
        writer.fits(),
    ensures
        ({
            let done = writer.write_vectored(data);
            &&& done.writer.fits() && done.writer.capacity == writer.capacity
            &&& match done.result {
                Ok(count) => count <= data.flatten().len() && stream(done.writer) == stream(
                    writer,
                ) + data.flatten().take(count as int),
                Err(_) => stream(done.writer) == stream(writer),
            }
        }),
{
    let all = data.flatten();
    let lines = through_last_line(data);
    lemma_write_vectored_progress(writer, data);
    assert(stream(writer) + Seq::<u8>::empty() =~= stream(writer));
    if !writer.output.vectored {
        lemma_first_filled_first(data);
        match first_filled(data) {
            Some(first) => {
                law_write(writer, first);
                let done = writer.write(first);
                if done.result is Ok {
                    assert(first.take(done.result->Ok_0 as int) =~= all.take(
                        done.result->Ok_0 as int,
                    ));
                }
            },
            None => {
                assert(all.take(0) =~= Seq::empty());
            },
        }
    } else if lines == 0 {
        law_flush_buf(writer);
        let ready = writer.flush_if_completed_line();
        if ready.result is Ok {
            lemma_write_vectored_buffered(ready.writer, data);
        }
    } else {
        law_flush_buf(writer);
        lemma_through_last_line(data);
        lemma_flatten_prefix(data, lines as int);
        let ready = writer.flush_buf();
        if ready.result is Ok {
            let head = data.take(lines as int);
            let sent = ready.writer.direct_vectored(head);
            lemma_direct_vectored(ready.writer, head);
            if sent.result is Ok {
                let flushed = sent.result->Ok_0;
                assert(head.flatten().take(flushed as int) =~= all.take(flushed as int));
                if flushed > 0 && flushed >= head.flatten().len() {
                    let tail = data.skip(lines as int).flatten();
                    let more = least(sent.writer.spare(), tail.len());
                    lemma_fit(sent.writer, tail);
                    assert(all.take(flushed as int) + tail.take(more as int) =~= all.take(
                        (flushed + more) as int,
                    ));
                    assert((stream(writer) + all.take(flushed as int)) + tail.take(more as int)
                        =~= stream(writer) + all.take((flushed + more) as int));
                }
            }
        }
    }
}

/// What extends a stream that was extended by the start of the data, extends the first.
proof fn lemma_extended_after(before: Seq<u8>, now: Seq<u8>, data: Seq<u8>, at: int)
    requires
        0 <= at <= data.len(),
        extended(before + data.take(at), now, data.skip(at)),
    ensures
        extended(before, now, data),
{
    let count = choose|count: int|
        0 <= count <= data.skip(at).len() && now == before + data.take(at) + #[trigger] data.skip(
            at,
        ).take(count);
    assert(now =~= before + data.take(at + count));
}

/// What extends a stream by some of the start of the data, extends it by some of the data.
proof fn lemma_extended_within(before: Seq<u8>, now: Seq<u8>, data: Seq<u8>, at: int)
    requires
        0 <= at <= data.len(),
        extended(before, now, data.take(at)),
    ensures
        extended(before, now, data),
{
    let count = choose|count: int|
        0 <= count <= data.take(at).len() && now == before + #[trigger] data.take(at).take(count);
    assert(data.take(at).take(count) =~= data.take(count));
}

/// Passing on lines takes all of them, or some bytes from the start where it fails. After a
/// success the buffer is empty.
proof fn lemma_write_lines(writer: Writer, data: Seq<u8>)
    requires
        writer.fits(),
    ensures
        ({
            let done = writer.write_lines(data);
            &&& done.writer.fits() && done.writer.capacity == writer.capacity
            &&& match done.result {
                Ok(_) => done.writer.buffered.len() == 0 && stream(done.writer) == stream(writer)
                    + data,
                Err(_) => extended(stream(writer), stream(done.writer), data),
            }
        }),
{
    if writer.buffered.len() == 0 {
        lemma_direct_all(writer, data);
    } else {
        lemma_write_all_buffered(writer, data);
        let joined = writer.write_all_buffered(data);
        if joined.result is Ok {
            law_flush_buf(joined.writer);
            assert(data.take(data.len() as int) =~= data);
        }
    }
}

/// Writing all of the data takes all of it, after all that was written before. Where it fails, it
/// takes some of it from the start.
pub proof fn law_write_all(writer: Writer, data: Seq<u8>)
    requires
        writer.fits(),
    ensures
        ({
            let done = writer.write_all(data);
            &&& done.writer.fits() && done.writer.capacity == writer.capacity
            &&& match done.result {
                Ok(_) => stream(done.writer) == stream(writer) + data,
                Err(_) => extended(stream(writer), stream(done.writer), data),
            }
        }),
{
    let lines = through_last(data, NEWLINE);
    lemma_through_last(data, NEWLINE);
    let head = data.take(lines as int);
    let tail = data.skip(lines as int);
    assert(head + tail =~= data);
    let ready = if lines == 0 {
        writer.flush_if_completed_line()
    } else {
        writer.write_lines(head)
    };
    if lines == 0 {
        law_flush_buf(writer);
        lemma_not_extended(stream(writer), data);
        assert(stream(writer) + head =~= stream(writer));
    } else {
        lemma_write_lines(writer, head);
        if ready.result is Err {
            lemma_extended_within(stream(writer), stream(ready.writer), data, lines as int);
        }
    }
    if ready.result is Ok {
        lemma_write_all_buffered(ready.writer, tail);
        let done = ready.writer.write_all_buffered(tail);
        if done.result is Ok {
            assert((stream(writer) + head) + tail =~= stream(writer) + data);
        } else {
            lemma_extended_after(stream(writer), stream(done.writer), data, lines as int);
        }
    }
}

/// Complete lines do not wait: after all of the data was written and a line ends in it, the buffer
/// holds no end of a line, so the host has everything up to the last one.
pub proof fn law_lines_passed_on(writer: Writer, data: Seq<u8>)
    requires
        writer.fits(),
        data.contains(NEWLINE),
        writer.write_all(data).result is Ok,
    ensures
        ({
            let done = writer.write_all(data);
            &&& !done.writer.buffered.contains(NEWLINE)
            &&& forall|at: int|
                0 < at <= data.len() && #[trigger] data[at - 1] == NEWLINE ==> (stream(writer)
                    + data.take(at)).is_prefix_of(delivered(done.writer.output))
        }),
{
    let lines = through_last(data, NEWLINE);
    lemma_through_last(data, NEWLINE);
    let head = data.take(lines as int);
    let tail = data.skip(lines as int);
    let ready = writer.write_lines(head);
    lemma_write_lines(writer, head);
    lemma_write_all_buffered(ready.writer, tail);
    let done = ready.writer.write_all_buffered(tail);
    assert forall|i: int| 0 <= i < tail.len() implies tail[i] != NEWLINE by {
        assert(tail[i] == data[lines + i]);
    }
    if tail.len() < ready.writer.capacity {
        assert(done.writer.buffered =~= tail);
    }
    law_write_all(writer, data);
    assert forall|at: int| 0 < at <= data.len() && #[trigger] data[at - 1] == NEWLINE implies (
    stream(writer) + data.take(at)).is_prefix_of(delivered(done.writer.output)) by {
        lemma_lines_delivered(stream(writer), data, done.writer, at);
    }
}

/// If the buffer holds no end of a line, the host has everything up to the last one.
pub proof fn lemma_lines_delivered(before: Seq<u8>, data: Seq<u8>, now: Writer, at: int)
    requires
        stream(now) == before + data,
        !now.buffered.contains(NEWLINE),
        0 < at <= data.len(),
        data[at - 1] == NEWLINE,
    ensures
        (before + data.take(at)).is_prefix_of(delivered(now.output)),
{
    let host = delivered(now.output);
    let end = before.len() + at;
    if end > host.len() {
        let i = end - 1 - host.len();
        assert(stream(now)[end - 1] == NEWLINE);
        assert(stream(now)[end - 1] == now.buffered[i]);
        assert(now.buffered.contains(now.buffered[i]));
    }
    assert(host.take(end) =~= stream(now).take(end));
    assert(stream(now).take(end) =~= before + data.take(at));
}

/// As [`law_lines_passed_on`], for formatted output.
pub proof fn law_pieces_passed_on(writer: Writer, pieces: Seq<Seq<u8>>)
    requires
        writer.fits(),
        writer.ends_lines(),
        pieces.flatten().contains(NEWLINE),
        writer.write_pieces(pieces).result is Ok,
    ensures
        ({
            let done = writer.write_pieces(pieces);
            let data = pieces.flatten();
            &&& !done.writer.buffered.contains(NEWLINE)
            &&& forall|at: int|
                0 < at <= data.len() && #[trigger] data[at - 1] == NEWLINE ==> (stream(writer)
                    + data.take(at)).is_prefix_of(delivered(done.writer.output))
        }),
{
    let done = writer.write_pieces(pieces);
    let data = pieces.flatten();
    if pieces.len() == 0 {
        assert(data =~= Seq::empty());
    }
    law_write_pieces(writer, pieces);
    lemma_write_pieces_ends_lines(writer, pieces);
    assert forall|at: int| 0 < at <= data.len() && #[trigger] data[at - 1] == NEWLINE implies (
    stream(writer) + data.take(at)).is_prefix_of(delivered(done.writer.output)) by {
        lemma_lines_delivered(stream(writer), data, done.writer, at);
    }
}

/// As [`law_lines_passed_on`], for several buffers and a host that takes them at one request.
pub proof fn law_vectored_lines_passed_on(writer: Writer, several: Seq<Seq<u8>>)
    requires
        writer.fits(),
        writer.ends_lines(),
        writer.output.vectored,
        several.flatten().contains(NEWLINE),
        writer.write_all_vectored(several).result is Ok,
    ensures
        ({
            let done = writer.write_all_vectored(several);
            let data = several.flatten();
            &&& !done.writer.buffered.contains(NEWLINE)
            &&& forall|at: int|
                0 < at <= data.len() && #[trigger] data[at - 1] == NEWLINE ==> (stream(writer)
                    + data.take(at)).is_prefix_of(delivered(done.writer.output))
        }),
{
    let done = writer.write_all_vectored(several);
    let data = several.flatten();
    lemma_advance(several, 0);
    law_write_all_vectored(writer, several);
    lemma_drain_vectored_ends_lines(writer, advance(several, 0));
    assert forall|at: int| 0 < at <= data.len() && #[trigger] data[at - 1] == NEWLINE implies (
    stream(writer) + data.take(at)).is_prefix_of(delivered(done.writer.output)) by {
        lemma_lines_delivered(stream(writer), data, done.writer, at);
    }
}

/// Formatted output may come piece by piece: writing some pieces and, where that succeeds, the
/// others is the same as writing all of them.
pub proof fn law_pieces_in_parts(writer: Writer, first: Seq<Seq<u8>>, second: Seq<Seq<u8>>)
    ensures
        ({
            let part = writer.write_pieces(first);
            writer.write_pieces(first + second) == match part.result {
                Ok(_) => part.writer.write_pieces(second),
                Err(_) => part,
            }
        }),
    decreases first.len(),
{
    if first.len() == 0 {
        assert(first + second =~= second);
    } else {
        assert((first + second).drop_first() =~= first.drop_first() + second);
        law_pieces_in_parts(writer.write_all(first[0]).writer, first.drop_first(), second);
    }
}

/// As [`law_pieces_in_parts`], for standard error.
pub proof fn law_raw_pieces_in_parts(output: Output, first: Seq<Seq<u8>>, second: Seq<Seq<u8>>)
    ensures
        ({
            let part = write_pieces(output, first);
            write_pieces(output, first + second) == match part.1 {
                Ok(_) => write_pieces(part.0, second),
                Err(_) => part,
            }
        }),
    decreases first.len(),
{
    if first.len() == 0 {
        assert(first + second =~= second);
    } else {
        assert((first + second).drop_first() =~= first.drop_first() + second);
        law_raw_pieces_in_parts(output.write_all(first[0]).output, first.drop_first(), second);
    }
}

/// The loop that writes several buffers takes all of them, or some bytes from the start.
proof fn lemma_drain_vectored(writer: Writer, data: Seq<Seq<u8>>)
    requires
        writer.fits(),
    ensures
        ({
            let done = writer.drain_vectored(data);
            &&& done.writer.fits() && done.writer.capacity == writer.capacity
            &&& match done.result {
                Ok(_) => stream(done.writer) == stream(writer) + data.flatten(),
                Err(_) => extended(stream(writer), stream(done.writer), data.flatten()),
            }
        }),
    decreases writer.output.left(), data.flatten().len(),
{
    let all = data.flatten();
    lemma_not_extended(stream(writer), all);
    if data.len() == 0 {
        assert(stream(writer) + all =~= stream(writer));
    } else {
        let part = writer.write_vectored(data);
        law_write_vectored(writer, data);
        lemma_write_vectored_progress(writer, data);
        match part.result {
            Ok(count) => {
                if count > 0 {
                    lemma_advance(data, count);
                    lemma_drain_vectored(part.writer, advance(data, count));
                    let done = part.writer.drain_vectored(advance(data, count));
                    if done.result is Ok {
                        assert((stream(writer) + all.take(count as int)) + all.skip(count as int)
                            =~= stream(writer) + all);
                    } else {
                        lemma_extended_after(
                            stream(writer),
                            stream(done.writer),
                            all,
                            count as int,
                        );
                    }
                } else {
                    assert(stream(writer) + all.take(0) =~= stream(writer));
                }
            },
            Err(error) => {
                if error.interrupted() {
                    lemma_drain_vectored(part.writer, data);
                }
            },
        }
    }
}

/// Writing all that several buffers hold takes all of it, after all that was written before. Where
/// it fails, it takes some of it from the start.
pub proof fn law_write_all_vectored(writer: Writer, data: Seq<Seq<u8>>)
    requires
        writer.fits(),
    ensures
        ({
            let done = writer.write_all_vectored(data);
            &&& done.writer.fits() && done.writer.capacity == writer.capacity
            &&& match done.result {
                Ok(_) => stream(done.writer) == stream(writer) + data.flatten(),
                Err(_) => extended(stream(writer), stream(done.writer), data.flatten()),
            }
        }),
{
    lemma_advance(data, 0);
    assert(data.flatten().skip(0) =~= data.flatten());
    lemma_drain_vectored(writer, advance(data, 0));
}

/// Formatted output takes all of the pieces in order. Where it fails, it takes some bytes of them
/// from the start.
pub proof fn law_write_pieces(writer: Writer, pieces: Seq<Seq<u8>>)
    requires
        writer.fits(),
    ensures
        ({
            let done = writer.write_pieces(pieces);
            &&& done.writer.fits() && done.writer.capacity == writer.capacity
            &&& match done.result {
                Ok(_) => stream(done.writer) == stream(writer) + pieces.flatten(),
                Err(_) => extended(stream(writer), stream(done.writer), pieces.flatten()),
            }
        }),
    decreases pieces.len(),
{
    let all = pieces.flatten();
    if pieces.len() == 0 {
        assert(stream(writer) + all =~= stream(writer));
    } else {
        let first = pieces[0];
        let others = pieces.drop_first();
        let done = writer.write_all(first);
        law_write_all(writer, first);
        assert(all.take(first.len() as int) =~= first);
        assert(all.skip(first.len() as int) =~= others.flatten());
        if done.result is Ok {
            law_write_pieces(done.writer, others);
            let whole = done.writer.write_pieces(others);
            if whole.result is Ok {
                assert((stream(writer) + first) + others.flatten() =~= stream(writer) + all);
            } else {
                lemma_extended_after(
                    stream(writer),
                    stream(whole.writer),
                    all,
                    first.len() as int,
                );
            }
        } else {
            lemma_extended_within(stream(writer), stream(done.writer), all, first.len() as int);
        }
    }
}

/// A flush moves what waits in the buffer to the host, and changes nothing else. After a success
/// the host has everything.
pub proof fn law_flush(writer: Writer)
    requires
        writer.fits(),
    ensures
        ({
            let done = writer.flush();
            &&& done.writer.fits() && done.writer.capacity == writer.capacity
            &&& stream(done.writer) == stream(writer)
            &&& done.result is Ok ==> delivered(done.writer.output) == stream(writer)
        }),
{
    law_flush_buf(writer);
    let flushed = writer.flush_buf();
    if flushed.result is Ok {
        lemma_delivered_ask(flushed.writer.output, WriteAsk::Flush);
        let done = writer.flush();
        assert(delivered(done.writer.output) =~= delivered(flushed.writer.output));
        assert(stream(done.writer) =~= stream(flushed.writer));
        assert(stream(flushed.writer) =~= delivered(flushed.writer.output));
    }
}

/// At the end of a process the buffer is passed on and given up: if the host takes it, it has
/// everything that was written.
pub proof fn law_unbuffered(writer: Writer)
    ensures
        ({
            let now = unbuffered(writer);
            &&& now.fits() && now.capacity == 0
            &&& delivered(now.output) + writer.flush_buf().writer.buffered == stream(writer)
            &&& writer.flush_buf().result is Ok ==> delivered(now.output) == stream(writer)
        }),
{
    law_flush_buf(writer);
    let flushed = writer.flush_buf();
    if flushed.result is Ok {
        assert(stream(flushed.writer) =~= delivered(flushed.writer.output));
    }
}

/// Without a buffer nothing waits: whatever is written, the host has all that was taken.
pub proof fn law_nothing_waits(writer: Writer, data: Seq<u8>, several: Seq<Seq<u8>>)
    requires
        writer.fits(),
        writer.capacity == 0,
    ensures
        ({
            let now = writer.write(data).writer;
            stream(now) == delivered(now.output) && now.fits() && now.capacity == 0
        }),
        ({
            let now = writer.write_all(data).writer;
            stream(now) == delivered(now.output) && now.fits() && now.capacity == 0
        }),
        ({
            let now = writer.write_vectored(several).writer;
            stream(now) == delivered(now.output) && now.fits() && now.capacity == 0
        }),
        ({
            let now = writer.write_all_vectored(several).writer;
            stream(now) == delivered(now.output) && now.fits() && now.capacity == 0
        }),
        ({
            let now = writer.write_pieces(several).writer;
            stream(now) == delivered(now.output) && now.fits() && now.capacity == 0
        }),
{
    law_write(writer, data);
    law_write_all(writer, data);
    law_write_vectored(writer, several);
    law_write_all_vectored(writer, several);
    law_write_pieces(writer, several);
    assert forall|now: Writer| now.buffered.len() == 0 implies #[trigger] stream(now) == delivered(
        now.output,
    ) by {
        assert(stream(now) =~= delivered(now.output));
    }
}

/// The start of a line waits: as long as it fits in the buffer, the host is asked nothing.
pub proof fn law_short_writes_wait(writer: Writer, data: Seq<u8>)
    requires
        writer.fits(),
        !data.contains(NEWLINE),
        writer.buffered.len() == 0 || writer.buffered.last() != NEWLINE,
        writer.buffered.len() + data.len() <= writer.capacity,
        data.len() < writer.capacity,
    ensures
        writer.write(data) == (Done { writer: writer.push(data), result: Ok(data.len()) }),
        writer.write_all(data) == (Done { writer: writer.push(data), result: Ok(()) }),
{
    lemma_through_last(data, NEWLINE);
    assert(data.skip(0) =~= data);
}

/// A write to standard error, which is not buffered, delivers exactly what it reports.
pub proof fn law_raw_write(output: Output, data: Seq<u8>)
    ensures
        delivered(output.ask(WriteAsk::Write(data))) == delivered(output) + (match forgiven(
            output.reply_within(data.len()),
            data.len(),
        ) {
            Ok(count) => data.take(count as int),
            Err(_) => Seq::empty(),
        }),
{
    lemma_delivered_ask(output, WriteAsk::Write(data));
    match forgiven(output.reply_within(data.len()), data.len()) {
        Ok(count) => {
            assert(accepted(WriteAsk::Write(data), output.reply()) =~= data.take(count as int));
        },
        Err(_) => {},
    }
}

/// Writing all of the data to standard error delivers all of it, or some of it from the start
/// where it fails.
pub proof fn law_raw_write_all(output: Output, data: Seq<u8>)
    ensures
        ({
            let drained = output.write_all(data);
            match forgiven(drained.result, ()) {
                Ok(_) => delivered(drained.output) == delivered(output) + data,
                Err(_) => extended(delivered(output), delivered(drained.output), data),
            }
        }),
{
    let writer = Writer { output, buffered: Seq::empty(), capacity: 0 };
    lemma_direct_all(writer, data);
    let done = writer.direct_all(data);
    assert(stream(writer) =~= delivered(output));
    assert(stream(done.writer) =~= delivered(done.writer.output));
}

/// Formatted output to standard error delivers all of the pieces in order, or some bytes of them
/// from the start where it fails.
pub proof fn law_raw_write_pieces(output: Output, pieces: Seq<Seq<u8>>)
    ensures
        ({
            let sent = write_pieces(output, pieces);
            match sent.1 {
                Ok(_) => delivered(sent.0) == delivered(output) + pieces.flatten(),
                Err(_) => extended(delivered(output), delivered(sent.0), pieces.flatten()),
            }
        }),
    decreases pieces.len(),
{
    let all = pieces.flatten();
    if pieces.len() == 0 {
        assert(delivered(output) + all =~= delivered(output));
    } else {
        let first = pieces[0];
        let others = pieces.drop_first();
        let drained = output.write_all(first);
        law_raw_write_all(output, first);
        assert(all.take(first.len() as int) =~= first);
        assert(all.skip(first.len() as int) =~= others.flatten());
        if forgiven(drained.result, ()) is Ok {
            law_raw_write_pieces(drained.output, others);
            let sent = write_pieces(drained.output, others);
            if sent.1 is Ok {
                assert((delivered(output) + first) + others.flatten() =~= delivered(output) + all);
            } else {
                lemma_extended_after(
                    delivered(output),
                    delivered(sent.0),
                    all,
                    first.len() as int,
                );
            }
        } else {
            lemma_extended_within(
                delivered(output),
                delivered(drained.output),
                all,
                first.len() as int,
            );
        }
    }
}

/// As [`law_raw_write`], for several buffers.
pub proof fn law_raw_write_vectored(output: Output, data: Seq<Seq<u8>>)
    ensures
        delivered(output.ask(WriteAsk::WriteVectored(data))) == delivered(output) + (match forgiven(
            output.reply_within(data.flatten().len()),
            data.flatten().len(),
        ) {
            Ok(count) => data.flatten().take(count as int),
            Err(_) => Seq::empty(),
        }),
{
    lemma_delivered_ask(output, WriteAsk::WriteVectored(data));
    let all = data.flatten();
    match forgiven(output.reply_within(all.len()), all.len()) {
        Ok(count) => {
            assert(accepted(WriteAsk::WriteVectored(data), output.reply()) =~= all.take(
                count as int,
            ));
        },
        Err(_) => {},
    }
}

/// The loop that writes several buffers to standard error delivers all of them, or some bytes
/// from the start.
proof fn lemma_raw_drain_vectored(output: Output, data: Seq<Seq<u8>>)
    ensures
        ({
            let drained = output.drain_vectored(data);
            match forgiven(drained.result, ()) {
                Ok(_) => delivered(drained.output) == delivered(output) + data.flatten(),
                Err(_) => extended(delivered(output), delivered(drained.output), data.flatten()),
            }
        }),
    decreases output.left(),
{
    let all = data.flatten();
    lemma_not_extended(delivered(output), all);
    if data.len() == 0 {
        assert(delivered(output) + all =~= delivered(output));
    } else {
        let next = output.ask(WriteAsk::WriteVectored(data));
        law_raw_write_vectored(output, data);
        assert(delivered(output) + Seq::<u8>::empty() =~= delivered(output));
        assert(all.take(all.len() as int) =~= all);
        match output.reply_within(all.len()) {
            Ok(count) => {
                if count > 0 {
                    lemma_advance(data, count);
                    lemma_raw_drain_vectored(next, advance(data, count));
                    let drained = next.drain_vectored(advance(data, count));
                    if forgiven(drained.result, ()) is Ok {
                        assert((delivered(output) + all.take(count as int)) + all.skip(
                            count as int,
                        ) =~= delivered(output) + all);
                    } else {
                        lemma_extended_after(
                            delivered(output),
                            delivered(drained.output),
                            all,
                            count as int,
                        );
                    }
                } else {
                    assert(delivered(output) + all.take(0) =~= delivered(output));
                }
            },
            Err(error) => {
                if error.interrupted() {
                    lemma_raw_drain_vectored(next, data);
                }
            },
        }
    }
}

/// Writing all that several buffers hold to standard error delivers all of it, or some of it from
/// the start where it fails.
pub proof fn law_raw_write_all_vectored(output: Output, data: Seq<Seq<u8>>)
    ensures
        ({
            let drained = output.write_all_vectored(data);
            match forgiven(drained.result, ()) {
                Ok(_) => delivered(drained.output) == delivered(output) + data.flatten(),
                Err(_) => extended(delivered(output), delivered(drained.output), data.flatten()),
            }
        }),
{
    lemma_advance(data, 0);
    assert(data.flatten().skip(0) =~= data.flatten());
    lemma_raw_drain_vectored(output, advance(data, 0));
}

/// Whether an operation ended because a request was interrupted.
pub open spec fn was_interrupted(result: Result<(), Error>) -> bool {
    result matches Err(error) && error.interrupted()
}

proof fn lemma_write_all_buffered_goes_on(writer: Writer, data: Seq<u8>)
    ensures
        !was_interrupted(writer.write_all_buffered(data).result),
{
    let room = writer.make_room(data.len()).writer;
    lemma_drain_progress(writer.output, writer.buffered, true, Fault::WriteBuffered);
    lemma_drain_progress(room.output, data, false, Fault::WriteBuffer);
}

/// An interrupted request does not end the writing of all data.
pub proof fn law_write_all_goes_on(writer: Writer, data: Seq<u8>)
    ensures
        !was_interrupted(writer.flush_buf().result),
        !was_interrupted(writer.write_all(data).result),
{
    let lines = through_last(data, NEWLINE);
    let head = data.take(lines as int);
    let tail = data.skip(lines as int);
    lemma_drain_progress(writer.output, writer.buffered, true, Fault::WriteBuffered);
    lemma_drain_progress(writer.output, head, false, Fault::WriteBuffer);
    lemma_write_all_buffered_goes_on(writer, head);
    let joined = writer.write_all_buffered(head).writer;
    lemma_drain_progress(joined.output, joined.buffered, true, Fault::WriteBuffered);
    let ready = if lines == 0 {
        writer.flush_if_completed_line().writer
    } else {
        writer.write_lines(head).writer
    };
    lemma_write_all_buffered_goes_on(ready, tail);
}

/// As [`law_write_all_goes_on`], for formatted output.
pub proof fn law_write_pieces_goes_on(writer: Writer, pieces: Seq<Seq<u8>>)
    ensures
        !was_interrupted(writer.write_pieces(pieces).result),
    decreases pieces.len(),
{
    if pieces.len() > 0 {
        law_write_all_goes_on(writer, pieces[0]);
        law_write_pieces_goes_on(writer.write_all(pieces[0]).writer, pieces.drop_first());
    }
}

proof fn lemma_drain_vectored_goes_on(writer: Writer, data: Seq<Seq<u8>>)
    ensures
        !was_interrupted(writer.drain_vectored(data).result),
    decreases writer.output.left(), data.flatten().len(),
{
    if data.len() > 0 {
        let part = writer.write_vectored(data);
        lemma_write_vectored_progress(writer, data);
        match part.result {
            Ok(count) => {
                if count > 0 {
                    lemma_advance(data, count);
                    lemma_drain_vectored_goes_on(part.writer, advance(data, count));
                }
            },
            Err(error) => {
                if error.interrupted() {
                    lemma_drain_vectored_goes_on(part.writer, data);
                }
            },
        }
    }
}

/// As [`law_write_all_goes_on`], for writing all that several buffers hold.
pub proof fn law_write_all_vectored_goes_on(writer: Writer, data: Seq<Seq<u8>>)
    ensures
        !was_interrupted(writer.write_all_vectored(data).result),
{
    lemma_drain_vectored_goes_on(writer, advance(data, 0));
}

proof fn lemma_raw_drain_vectored_goes_on(output: Output, data: Seq<Seq<u8>>)
    ensures
        !was_interrupted(output.drain_vectored(data).result),
    decreases output.left(),
{
    if data.len() > 0 && output.left() > 0 {
        let next = output.ask(WriteAsk::WriteVectored(data));
        match output.reply_within(data.flatten().len()) {
            Ok(count) => lemma_raw_drain_vectored_goes_on(next, advance(data, count)),
            Err(_) => lemma_raw_drain_vectored_goes_on(next, data),
        }
    }
}

/// As [`law_write_all_goes_on`], for writing all data past all buffers.
pub proof fn law_raw_goes_on(output: Output, data: Seq<u8>, several: Seq<Seq<u8>>)
    ensures
        !was_interrupted(output.write_all(data).result),
        !was_interrupted(output.write_all_vectored(several).result),
        !was_interrupted(output.write_pieces(several).result),
        !was_interrupted(write_pieces(output, several).1),
    decreases several.len(),
{
    lemma_drain_progress(output, data, false, Fault::WriteBuffer);
    lemma_raw_drain_vectored_goes_on(output, advance(several, 0));
    if several.len() > 0 {
        lemma_drain_progress(output, several[0], false, Fault::WriteBuffer);
        law_raw_goes_on(output.write_all(several[0]).output, data, several.drop_first());
    }
}

} // verus!
