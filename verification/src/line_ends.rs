//! What a line buffer keeps: if it holds the end of a line, it ends with it.
use vstd::prelude::*;

use crate::bytes::{advance, least, lemma_advance, lemma_flatten_prefix, NEWLINE};
use crate::error::{forgiven, Fault};
use crate::line_writer::{
    first_filled, lemma_drain_progress, lemma_through_last_line, lemma_write_vectored_progress,
    through_last_line, Writer,
};
use crate::scan::{lemma_through_last, through_last};
use crate::sink::{Output, WriteAsk};

verus! {

/// What the host does not take is the end of the data.
pub proof fn lemma_drain_rest(output: Output, data: Seq<u8>, lenient: bool, zero: Fault)
    ensures
        ({
            let rest = output.drain(data, lenient, zero).rest;
            rest.len() <= data.len() && rest == data.skip(data.len() - rest.len())
        }),
    decreases output.left(),
{
    assert(data.skip(0) =~= data);
    if data.len() > 0 {
        let next = output.ask(WriteAsk::Write(data));
        let reply = output.reply_within(data.len());
        match if lenient {
            forgiven(reply, data.len())
        } else {
            reply
        } {
            Ok(count) => {
                if count > 0 {
                    let left = data.skip(count as int);
                    lemma_drain_rest(next, left, lenient, zero);
                    let rest = next.drain(left, lenient, zero).rest;
                    assert(left.skip(left.len() - rest.len()) =~= data.skip(
                        data.len() - rest.len(),
                    ));
                }
            },
            Err(error) => {
                if error.interrupted() {
                    lemma_drain_rest(next, data, lenient, zero);
                }
            },
        }
    }
}

/// The end of a buffer that ends with the end of a line does so too, and the end of one without
/// any end of a line holds none.
proof fn lemma_rest_ends_lines(before: Writer, now: Writer)
    requires
        before.ends_lines(),
        now.buffered.len() <= before.buffered.len(),
        now.buffered == before.buffered.skip(before.buffered.len() - now.buffered.len()),
    ensures
        now.ends_lines(),
        !before.buffered.contains(NEWLINE) ==> !now.buffered.contains(NEWLINE),
{
    let from = before.buffered.len() - now.buffered.len();
    assert forall|i: int| 0 <= i < now.buffered.len() implies now.buffered[i]
        == before.buffered[from + i] by {}
    if now.buffered.contains(NEWLINE) {
        let i = now.buffered.index_of(NEWLINE);
        assert(before.buffered[from + i] == NEWLINE);
    }
}

/// Passing on the buffer keeps its end.
pub proof fn lemma_flush_buf_ends_lines(writer: Writer)
    requires
        writer.ends_lines(),
    ensures
        ({
            let done = writer.flush_buf();
            &&& done.writer.ends_lines()
            &&& done.result is Ok ==> done.writer.buffered.len() == 0
            &&& !writer.buffered.contains(NEWLINE) ==> !done.writer.buffered.contains(NEWLINE)
        }),
{
    lemma_drain_rest(writer.output, writer.buffered, true, Fault::WriteBuffered);
    lemma_drain_progress(writer.output, writer.buffered, true, Fault::WriteBuffered);
    lemma_rest_ends_lines(writer, writer.flush_buf().writer);
}

/// A line that waits is passed on before the start of the next one is buffered.
pub proof fn lemma_flush_if_completed_line_ends_lines(writer: Writer)
    requires
        writer.ends_lines(),
    ensures
        ({
            let done = writer.flush_if_completed_line();
            &&& done.writer.ends_lines()
            &&& done.result is Ok ==> !done.writer.buffered.contains(NEWLINE)
        }),
{
    lemma_flush_buf_ends_lines(writer);
}

/// Data without the end of a line leaves none in the buffer.
proof fn lemma_push_start(writer: Writer, data: Seq<u8>)
    requires
        !writer.buffered.contains(NEWLINE),
        !data.contains(NEWLINE),
    ensures
        !writer.push(data).buffered.contains(NEWLINE),
{
    assert forall|i: int| 0 <= i < writer.push(data).buffered.len() implies writer.push(
        data,
    ).buffered[i] != NEWLINE by {
        if i < writer.buffered.len() {
            assert(writer.buffered.contains(writer.buffered[i]));
        } else {
            assert(data.contains(data[i - writer.buffered.len()]));
        }
    }
}

/// Buffering the start of a line leaves no end of a line in the buffer, if there was none.
proof fn lemma_start_buffered(writer: Writer, data: Seq<u8>, several: Seq<Seq<u8>>)
    requires
        !writer.buffered.contains(NEWLINE),
    ensures
        !data.contains(NEWLINE) ==> {
            &&& !writer.write_buffered(data).writer.buffered.contains(NEWLINE)
            &&& !writer.write_all_buffered(data).writer.buffered.contains(NEWLINE)
        },
        !several.flatten().contains(NEWLINE) ==> !writer.write_vectored_buffered(
            several,
        ).writer.buffered.contains(NEWLINE),
{
    lemma_flush_buf_ends_lines(writer);
    let all = several.flatten();
    if !data.contains(NEWLINE) {
        lemma_push_start(writer.make_room(data.len()).writer, data);
    }
    if !all.contains(NEWLINE) {
        lemma_push_start(writer.make_room(all.len()).writer, all);
    }
}

/// Data up to and with the end of a line may be buffered after anything.
proof fn lemma_line_buffered(writer: Writer, data: Seq<u8>)
    requires
        writer.ends_lines(),
        data.len() > 0,
        data.last() == NEWLINE,
    ensures
        writer.write_all_buffered(data).writer.ends_lines(),
{
    lemma_flush_buf_ends_lines(writer);
    let room = writer.make_room(data.len()).writer;
    assert(room.push(data).buffered.last() == data.last());
}

/// The buffers after the last one with the end of a line hold none.
proof fn lemma_after_last_line(data: Seq<Seq<u8>>)
    ensures
        through_last_line(data) <= data.len(),
        !data.skip(through_last_line(data) as int).flatten().contains(NEWLINE),
    decreases data.len(),
{
    lemma_through_last_line(data);
    let count = through_last_line(data) as int;
    let tail = data.skip(count);
    if data.len() == 0 || count == data.len() {
        assert(tail =~= Seq::empty());
    } else {
        let front = data.drop_last();
        lemma_after_last_line(front);
        lemma_through_last(data.last(), NEWLINE);
        assert(tail.drop_last() =~= front.skip(count));
        assert(tail =~= front.skip(count).push(data.last()));
        front.skip(count).lemma_flatten_push(data.last());
        let before = front.skip(count).flatten();
        let all = tail.flatten();
        assert forall|i: int| 0 <= i < all.len() implies all[i] != NEWLINE by {
            if i < before.len() {
                assert(before.contains(before[i]));
            } else {
                assert(all[i] == data.last()[i - before.len()]);
            }
        }
    }
}

/// Buffers up to one with the end of a line hold something.
pub proof fn lemma_lines_filled(data: Seq<Seq<u8>>)
    ensures
        through_last_line(data) > 0 ==> data.take(through_last_line(data) as int).flatten().len()
            > 0,
    decreases data.len(),
{
    lemma_through_last_line(data);
    let count = through_last_line(data);
    if data.len() > 0 && count > 0 {
        if count == data.len() && through_last(data.last(), NEWLINE) > 0 {
            lemma_through_last(data.last(), NEWLINE);
            lemma_flatten_prefix(data, count - 1);
            assert(data.take(count as int) =~= data);
            let last = data.skip(count - 1);
            assert(last.drop_first() =~= Seq::empty());
            assert(last.drop_first().flatten() =~= Seq::empty());
            assert(last.flatten() =~= last[0] + last.drop_first().flatten());
        } else {
            lemma_lines_filled(data.drop_last());
            lemma_through_last_line(data.drop_last());
            assert(data.take(count as int) =~= data.drop_last().take(count as int));
        }
    }
}

/// Part of data without the end of a line holds none.
proof fn lemma_take_start(data: Seq<u8>, count: int)
    requires
        0 <= count <= data.len(),
        !data.contains(NEWLINE),
    ensures
        !data.take(count).contains(NEWLINE),
{
    assert forall|i: int| 0 <= i < count implies data.take(count)[i] != NEWLINE by {
        assert(data.contains(data[i]));
    }
}

/// A write keeps the end of the buffer in order.
pub proof fn lemma_write_ends_lines(writer: Writer, data: Seq<u8>)
    requires
        writer.ends_lines(),
    ensures
        writer.write(data).writer.ends_lines(),
{
    let lines = through_last(data, NEWLINE);
    lemma_through_last(data, NEWLINE);
    lemma_flush_buf_ends_lines(writer);
    if lines == 0 {
        let ready = writer.flush_if_completed_line();
        lemma_flush_if_completed_line_ends_lines(writer);
        if ready.result is Ok {
            lemma_start_buffered(ready.writer, data, Seq::empty());
        }
    } else {
        let ready = writer.flush_buf().writer;
        let sent = ready.direct(data.take(lines as int));
        if writer.flush_buf().result is Ok && sent.result is Ok {
            let flushed = sent.result->Ok_0;
            let tail = sent.writer.tail_to_buffer(data, lines, flushed);
            let fitting = sent.writer.fit(tail);
            if flushed > 0 {
                assert(sent.writer.buffered.len() == 0);
                assert(fitting.buffered =~= tail.take(
                    least(sent.writer.spare(), tail.len()) as int,
                ));
                if flushed >= lines {
                    assert forall|i: int| 0 <= i < tail.len() implies tail[i] != NEWLINE by {
                        assert(tail[i] == data[flushed + i]);
                    }
                    lemma_take_start(tail, least(sent.writer.spare(), tail.len()) as int);
                } else if lines - flushed <= writer.capacity {
                    assert(fitting.buffered =~= tail);
                    assert(tail.last() == data[lines - 1]);
                } else {
                    let part = data.subrange(flushed as int, (flushed + writer.capacity) as int);
                    lemma_through_last(part, NEWLINE);
                    assert(fitting.buffered =~= tail);
                    if through_last(part, NEWLINE) == 0 {
                        assert(tail =~= part);
                        assert forall|i: int| 0 <= i < part.len() implies part[i] != NEWLINE by {}
                    }
                }
            }
        }
    }
}

/// As [`lemma_write_ends_lines`], for several buffers. A host that takes several buffers at one
/// request leaves no end of a line in the buffer after a success.
pub proof fn lemma_write_vectored_ends_lines(writer: Writer, data: Seq<Seq<u8>>)
    requires
        writer.ends_lines(),
    ensures
        ({
            let done = writer.write_vectored(data);
            &&& done.writer.ends_lines()
            &&& writer.output.vectored && done.result is Ok ==> !done.writer.buffered.contains(
                NEWLINE,
            )
        }),
{
    let lines = through_last_line(data);
    lemma_after_last_line(data);
    lemma_flush_buf_ends_lines(writer);
    if !writer.output.vectored {
        if first_filled(data) is Some {
            lemma_write_ends_lines(writer, first_filled(data)->0);
        }
    } else if lines == 0 {
        let ready = writer.flush_if_completed_line();
        lemma_flush_if_completed_line_ends_lines(writer);
        assert(data.skip(0) =~= data);
        if ready.result is Ok {
            lemma_start_buffered(ready.writer, Seq::empty(), data);
        }
    } else {
        let ready = writer.flush_buf().writer;
        let sent = ready.direct_vectored(data.take(lines as int)).writer;
        let tail = data.skip(lines as int).flatten();
        let count = least(sent.spare(), tail.len()) as int;
        lemma_take_start(tail, count);
        if writer.flush_buf().result is Ok {
            assert(sent.buffered.len() == 0);
            assert(sent.fit(tail).buffered =~= tail.take(count));
        }
    }
}

/// As [`lemma_write_ends_lines`], for writing all of the data, which leaves no end of a line in the
/// buffer after a success.
pub proof fn lemma_write_all_ends_lines(writer: Writer, data: Seq<u8>)
    requires
        writer.ends_lines(),
    ensures
        ({
            let done = writer.write_all(data);
            &&& done.writer.ends_lines()
            &&& done.result is Ok ==> !done.writer.buffered.contains(NEWLINE)
        }),
{
    let lines = through_last(data, NEWLINE);
    let head = data.take(lines as int);
    let tail = data.skip(lines as int);
    lemma_through_last(data, NEWLINE);
    lemma_flush_if_completed_line_ends_lines(writer);
    assert forall|i: int| 0 <= i < tail.len() implies tail[i] != NEWLINE by {
        assert(tail[i] == data[lines + i]);
    }
    let ready = if lines == 0 {
        writer.flush_if_completed_line()
    } else {
        writer.write_lines(head)
    };
    if lines > 0 {
        assert(head.last() == NEWLINE);
        if writer.buffered.len() > 0 {
            lemma_line_buffered(writer, head);
            lemma_flush_buf_ends_lines(writer.write_all_buffered(head).writer);
        }
    }
    if ready.result is Ok {
        lemma_start_buffered(ready.writer, tail, Seq::empty());
    }
}

/// As [`lemma_write_all_ends_lines`], for formatted output of at least one piece.
pub proof fn lemma_write_pieces_ends_lines(writer: Writer, pieces: Seq<Seq<u8>>)
    requires
        writer.ends_lines(),
    ensures
        ({
            let done = writer.write_pieces(pieces);
            &&& done.writer.ends_lines()
            &&& done.result is Ok && pieces.len() > 0 ==> !done.writer.buffered.contains(NEWLINE)
        }),
    decreases pieces.len(),
{
    if pieces.len() > 0 {
        lemma_write_all_ends_lines(writer, pieces[0]);
        lemma_write_pieces_ends_lines(writer.write_all(pieces[0]).writer, pieces.drop_first());
    }
}

/// As [`lemma_write_vectored_ends_lines`], for writing all that several buffers hold.
pub proof fn lemma_drain_vectored_ends_lines(writer: Writer, data: Seq<Seq<u8>>)
    requires
        writer.ends_lines(),
    ensures
        ({
            let done = writer.drain_vectored(data);
            &&& done.writer.ends_lines()
            &&& writer.output.vectored && done.result is Ok && data.len() > 0
                ==> !done.writer.buffered.contains(NEWLINE)
        }),
    decreases writer.output.left(), data.flatten().len(),
{
    if data.len() > 0 {
        let part = writer.write_vectored(data);
        lemma_write_vectored_ends_lines(writer, data);
        lemma_write_vectored_progress(writer, data);
        lemma_write_vectored_host(writer, data);
        match part.result {
            Ok(count) => {
                if count > 0 {
                    lemma_advance(data, count);
                    lemma_drain_vectored_ends_lines(part.writer, advance(data, count));
                }
            },
            Err(error) => {
                if error.interrupted() {
                    lemma_drain_vectored_ends_lines(part.writer, data);
                }
            },
        }
    }
}

/// A write does not change what the host can do.
proof fn lemma_write_vectored_host(writer: Writer, data: Seq<Seq<u8>>)
    ensures
        writer.output.vectored ==> writer.write_vectored(data).writer.output.vectored,
{
    lemma_drain_progress(writer.output, writer.buffered, true, Fault::WriteBuffered);
    let ready = writer.flush_if_completed_line().writer;
    lemma_drain_progress(ready.output, ready.buffered, true, Fault::WriteBuffered);
}

} // verus!
