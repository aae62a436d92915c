//! Laws of what each write asks of the host, and what it leaves in the buffer.
use vstd::prelude::*;

use crate::basic_laws::law_advance;
use crate::bytes::{advance, lemma_flatten_prefix, NEWLINE};
use crate::error::{Error, ErrorKind, Fault};
use crate::host_laws::lemma_advance_none;
use crate::line_ends::{lemma_lines_filled, lemma_write_vectored_ends_lines};
use crate::line_writer::{
    first_filled, lemma_drain_progress, lemma_write_vectored_progress, through_last_line, Done,
    Writer,
};
use crate::output_laws::{
    delivered, law_write, law_write_vectored, lemma_lines_delivered, stream,
};
use crate::output_replay_laws::lemma_flush_buf_grown;
use crate::scan::{lemma_through_last, through_last};
use crate::sink::{Output, WriteAsk};
use crate::stdout::unbuffered;

verus! {

/// Passing on the buffer asks the host to write everything that waits, until nothing is left. What
/// the host takes leaves the buffer. An interrupted request is repeated, a stream that is not open
/// takes everything, and an answer that nothing was written, and any other failure, end it.
pub proof fn law_flush_buf_step(writer: Writer)
    ensures
        ({
            let done = writer.flush_buf();
            let at = writer.output.asked.len() as int;
            let asked = writer.output.asked.push(WriteAsk::Write(writer.buffered));
            let next = Writer { output: Output { asked, ..writer.output }, ..writer };
            if writer.buffered.len() == 0 {
                done.writer == writer && done.result is Ok
            } else if at >= writer.output.answers.len() {
                done == (Done { writer: next, result: Err::<(), Error>(Error::Unanswered) })
            } else {
                match writer.output.answers[at] {
                    Ok(count) => if count == 0 {
                        &&& done.writer == next
                        &&& done.result == Err::<(), Error>(Error::Fault(Fault::WriteBuffered))
                    } else if count >= writer.buffered.len() {
                        &&& done.writer == Writer { buffered: Seq::empty(), ..next }
                        &&& done.result is Ok
                    } else {
                        let left = writer.buffered.skip(count as int);
                        done == Writer { buffered: left, ..next }.flush_buf()
                    },
                    Err(Error::Os(9)) => {
                        &&& done.writer == Writer { buffered: Seq::empty(), ..next }
                        &&& done.result is Ok
                    },
                    Err(Error::Os(4)) => done == next.flush_buf(),
                    Err(Error::Simple(ErrorKind::Interrupted)) => done == next.flush_buf(),
                    Err(error) => done == (Done { writer: next, result: Err::<(), Error>(error) }),
                }
            }
        }),
        writer.flush_buf().result is Ok ==> writer.flush_buf().writer.buffered.len() == 0,
        writer.flush_buf().writer.capacity == writer.capacity,
        writer.flush_buf().writer.buffered.len() <= writer.buffered.len(),
{
    let all = writer.buffered;
    let next = writer.output.ask(WriteAsk::Write(all));
    let none = next.drain(all.skip(all.len() as int), true, Fault::WriteBuffered);
    assert(none.output == next && none.result is Ok);
    assert(none.rest =~= Seq::empty());
    lemma_drain_progress(writer.output, all, true, Fault::WriteBuffered);
}

/// Data without the end of a line is buffered where it fits and is smaller than the buffer. What
/// stands in its way is passed on first, as if before the write: a complete line that waits, and a
/// buffer that has not enough room. Data as large as the buffer goes to the host at one request.
pub proof fn law_write_start(writer: Writer, data: Seq<u8>)
    requires
        writer.buffered.len() <= writer.capacity,
        !data.contains(10u8),
    ensures
        ({
            let done = writer.write(data);
            let had = writer.buffered;
            let flushed = writer.flush_buf();
            let at = writer.output.asked.len() as int;
            let asked = writer.output.asked.push(WriteAsk::Write(data));
            if had.len() > 0 && (had.last() == 10 || had.len() + data.len() > writer.capacity) {
                match flushed.result {
                    Ok(_) => done == flushed.writer.write(data),
                    Err(error) => {
                        &&& done.writer == flushed.writer
                        &&& done.result == Err::<nat, Error>(error)
                    },
                }
            } else if data.len() < writer.capacity {
                &&& done.writer == Writer { buffered: had + data, ..writer }
                &&& done.result == Ok::<nat, Error>(data.len())
            } else {
                &&& done.writer == Writer { output: Output { asked, ..writer.output }, ..writer }
                &&& if at >= writer.output.answers.len() {
                    done.result == Err::<nat, Error>(Error::Unanswered)
                } else {
                    match writer.output.answers[at] {
                        Ok(count) => done.result == Ok::<nat, Error>(
                            if count <= data.len() {
                                count as nat
                            } else {
                                data.len()
                            },
                        ),
                        Err(Error::Os(9)) => done.result == Ok::<nat, Error>(data.len()),
                        Err(error) => done.result == Err::<nat, Error>(error),
                    }
                }
            }
        }),
{
    lemma_no_lines(data);
    law_flush_buf_step(writer);
    let flushed = writer.flush_buf().writer;
    law_flush_buf_step(flushed);
}

/// Data without the end of a line has no lines.
proof fn lemma_no_lines(data: Seq<u8>)
    requires
        !data.contains(10u8),
    ensures
        through_last(data, NEWLINE) == 0,
{
    lemma_through_last(data, NEWLINE);
    let lines = through_last(data, NEWLINE);
    if lines > 0 {
        assert(data.contains(data[lines - 1]));
    }
}

/// The lines end where the last newline stands.
proof fn lemma_lines(data: Seq<u8>, lines: int)
    requires
        0 < lines <= data.len(),
        data[lines - 1] == 10,
        !data.skip(lines).contains(10u8),
    ensures
        through_last(data, NEWLINE) == lines,
{
    lemma_through_last(data, NEWLINE);
    let found = through_last(data, NEWLINE);
    if found > lines {
        assert(data.skip(lines)[found - 1 - lines] == 10);
    }
}

/// Data with lines in it, of which the last ends with byte `lines`: after all that waits, the host
/// is asked for the lines at one request. Where the host fails, or takes nothing, nothing is
/// buffered.
pub proof fn law_write_lines(writer: Writer, data: Seq<u8>, lines: int)
    requires
        0 < lines <= data.len(),
        data[lines - 1] == 10,
        !data.skip(lines).contains(10u8),
    ensures
        ({
            let done = writer.write(data);
            let flushed = writer.flush_buf();
            let out = flushed.writer.output;
            let at = out.asked.len() as int;
            let asked = out.asked.push(WriteAsk::Write(data.take(lines)));
            let now = done.writer;
            match flushed.result {
                Err(error) => now == flushed.writer && done.result == Err::<nat, Error>(error),
                Ok(_) => {
                    &&& now.output == Output { asked, ..out }
                    &&& now.capacity == writer.capacity
                    &&& at >= out.answers.len() ==> {
                        &&& done.result == Err::<nat, Error>(Error::Unanswered)
                        &&& now.buffered.len() == 0
                    }
                    &&& at < out.answers.len() ==> match out.answers[at] {
                        Ok(count) => done.result is Ok && (count == 0 ==> {
                            &&& done.result == Ok::<nat, Error>(0)
                            &&& now.buffered.len() == 0
                        }),
                        Err(Error::Os(9)) => done.result is Ok,
                        Err(error) => {
                            &&& done.result == Err::<nat, Error>(error)
                            &&& now.buffered.len() == 0
                        },
                    }
                },
            }
        }),
{
    lemma_lines(data, lines);
    law_flush_buf_step(writer);
}

/// If the host takes the lines, or the stream is not open, no line waits: what follows the lines is
/// buffered, as much as fits.
pub proof fn law_write_lines_taken(writer: Writer, data: Seq<u8>, lines: int)
    requires
        0 < lines <= data.len(),
        data[lines - 1] == 10,
        !data.skip(lines).contains(10u8),
        writer.flush_buf().result is Ok,
        ({
            let out = writer.flush_buf().writer.output;
            let at = out.asked.len() as int;
            &&& at < out.answers.len()
            &&& match out.answers[at] {
                Ok(count) => count >= lines,
                Err(error) => error == Error::Os(9),
            }
        }),
    ensures
        ({
            let done = writer.write(data);
            let end = if data.len() <= lines + writer.capacity {
                data.len() as int
            } else {
                lines + writer.capacity
            };
            &&& done.result == Ok::<nat, Error>(end as nat)
            &&& done.writer.buffered == data.subrange(lines, end)
            &&& !done.writer.buffered.contains(10u8)
        }),
{
    lemma_lines(data, lines);
    law_flush_buf_step(writer);
    let sent = writer.flush_buf().writer.direct(data.take(lines));
    let done = writer.write(data);
    let end = done.result->Ok_0 as int;
    assert(sent.writer.buffered =~= Seq::empty());
    assert(done.writer.buffered =~= data.subrange(lines, end));
    assert forall|i: int| 0 <= i < end - lines implies done.writer.buffered[i] != 10 by {
        assert(data.skip(lines).contains(data.skip(lines)[i]));
    }
}

/// If the host takes only the first `taken` bytes of the lines, as many of the other lines are
/// buffered as fit, or as much of one line as fits.
pub proof fn law_write_lines_short(writer: Writer, data: Seq<u8>, lines: int, taken: usize)
    requires
        0 < taken < lines <= data.len(),
        data[lines - 1] == 10,
        !data.skip(lines).contains(10u8),
        writer.flush_buf().result is Ok,
        ({
            let out = writer.flush_buf().writer.output;
            let at = out.asked.len() as int;
            at < out.answers.len() && out.answers[at] == Ok::<usize, Error>(taken)
        }),
    ensures
        ({
            let done = writer.write(data);
            let end = if lines <= taken + writer.capacity {
                lines
            } else {
                taken + writer.capacity
            };
            let room = data.subrange(taken as int, end);
            &&& done.result matches Ok(count)
            &&& taken <= count <= end
            &&& done.writer.buffered == data.subrange(taken as int, count as int)
            &&& !data.subrange(count as int, end).contains(10u8)
            &&& room.contains(10u8) ==> taken < count && data[count - 1] == 10
            &&& !room.contains(10u8) ==> count == end
        }),
{
    lemma_lines(data, lines);
    law_flush_buf_step(writer);
    let sent = writer.flush_buf().writer.direct(data.take(lines));
    let done = writer.write(data);
    let count = done.result->Ok_0 as int;
    let end = if lines <= taken + writer.capacity {
        lines
    } else {
        taken + writer.capacity
    };
    let room = data.subrange(taken as int, end);
    lemma_through_last(room, NEWLINE);
    assert(sent.writer.buffered =~= Seq::empty());
    assert(done.writer.buffered =~= data.subrange(taken as int, count));
    if lines <= taken + writer.capacity {
        assert(count == lines);
        assert(data.subrange(count, end) =~= Seq::empty());
        assert(room[lines - taken - 1] == 10);
    } else {
        let last = through_last(room, NEWLINE);
        if last == 0 {
            assert(data.subrange(count, end) =~= Seq::empty());
            assert(forall|i: int| 0 <= i < room.len() ==> room[i] != NEWLINE);
        } else {
            assert(room[last - 1] == data[taken + last - 1]);
            assert forall|i: int| 0 <= i < end - count implies data.subrange(count, end)[i]
                != 10 by {
                assert(data.subrange(count, end)[i] == room[last + i]);
            }
        }
    }
}

/// A host that takes one buffer at a time gets the first that is not empty, as if it were written
/// alone. Nothing is done where all are empty.
pub proof fn law_write_vectored_alone(writer: Writer, data: Seq<Seq<u8>>, at: int)
    requires
        !writer.output.vectored,
        0 <= at <= data.len(),
        forall|i: int| 0 <= i < at ==> (#[trigger] data[i]).len() == 0,
        at < data.len() ==> data[at].len() > 0,
    ensures
        at < data.len() ==> writer.write_vectored(data) == writer.write(data[at]),
        at == data.len() ==> writer.write_vectored(data) == (Done {
            writer,
            result: Ok::<nat, Error>(0),
        }),
{
    lemma_first_filled_at(data, at);
}

proof fn lemma_first_filled_at(data: Seq<Seq<u8>>, at: int)
    requires
        0 <= at <= data.len(),
        forall|i: int| 0 <= i < at ==> (#[trigger] data[i]).len() == 0,
        at < data.len() ==> data[at].len() > 0,
    ensures
        at < data.len() ==> first_filled(data) == Some(data[at]),
        at == data.len() ==> first_filled(data) is None,
    decreases at,
{
    if at > 0 {
        assert(data[0].len() == 0);
        let rest = data.drop_first();
        assert forall|i: int| 0 <= i < at - 1 implies (#[trigger] rest[i]).len() == 0 by {
            assert(rest[i] == data[i + 1]);
        }
        lemma_first_filled_at(rest, at - 1);
    }
}

/// As [`law_write_start`], for several buffers and a host that takes them at one request.
pub proof fn law_write_vectored_start(writer: Writer, data: Seq<Seq<u8>>)
    requires
        writer.output.vectored,
        writer.buffered.len() <= writer.capacity,
        !data.flatten().contains(10u8),
    ensures
        ({
            let done = writer.write_vectored(data);
            let had = writer.buffered;
            let all = data.flatten();
            let flushed = writer.flush_buf();
            let at = writer.output.asked.len() as int;
            let asked = writer.output.asked.push(WriteAsk::WriteVectored(data));
            if had.len() > 0 && (had.last() == 10 || had.len() + all.len() > writer.capacity) {
                match flushed.result {
                    Ok(_) => done == flushed.writer.write_vectored(data),
                    Err(error) => {
                        &&& done.writer == flushed.writer
                        &&& done.result == Err::<nat, Error>(error)
                    },
                }
            } else if all.len() < writer.capacity {
                &&& done.writer == Writer { buffered: had + all, ..writer }
                &&& done.result == Ok::<nat, Error>(all.len())
            } else {
                &&& done.writer == Writer { output: Output { asked, ..writer.output }, ..writer }
                &&& if at >= writer.output.answers.len() {
                    done.result == Err::<nat, Error>(Error::Unanswered)
                } else {
                    match writer.output.answers[at] {
                        Ok(count) => done.result == Ok::<nat, Error>(
                            if count <= all.len() {
                                count as nat
                            } else {
                                all.len()
                            },
                        ),
                        Err(Error::Os(9)) => done.result == Ok::<nat, Error>(all.len()),
                        Err(error) => done.result == Err::<nat, Error>(error),
                    }
                }
            }
        }),
{
    lemma_no_line_buffers(data);
    law_flush_buf_step(writer);
    lemma_drain_progress(writer.output, writer.buffered, true, Fault::WriteBuffered);
    let flushed = writer.flush_buf().writer;
    law_flush_buf_step(flushed);
}

/// Buffers without the end of a line have no lines.
proof fn lemma_no_line_buffers(data: Seq<Seq<u8>>)
    requires
        !data.flatten().contains(10u8),
    ensures
        through_last_line(data) == 0,
{
    let count = through_last_line(data) as int;
    lemma_last_line(data);
    if count > 0 {
        let at = data[count - 1].index_of(10u8);
        lemma_flatten_prefix(data, count - 1);
        let before = data.take(count - 1).flatten();
        let rest = data.skip(count - 1);
        assert(rest[0] == data[count - 1]);
        assert(rest.flatten() == rest[0] + rest.drop_first().flatten());
        assert(data.flatten()[before.len() + at] == 10);
    }
}

/// The last of the buffers with lines holds the end of a line.
proof fn lemma_last_line(data: Seq<Seq<u8>>)
    ensures
        through_last_line(data) <= data.len(),
        through_last_line(data) > 0 ==> data[through_last_line(data) - 1].contains(10u8),
    decreases data.len(),
{
    if data.len() > 0 {
        lemma_through_last(data.last(), NEWLINE);
        if through_last(data.last(), NEWLINE) > 0 {
            let last = data.last();
            assert(last[through_last(last, NEWLINE) - 1] == 10);
        } else {
            lemma_last_line(data.drop_last());
        }
    }
}

/// There are as many buffers with lines as go up to the last one that holds the end of a line.
proof fn lemma_line_buffers(data: Seq<Seq<u8>>, lines: int)
    requires
        0 < lines <= data.len(),
        data[lines - 1].contains(10u8),
        !data.skip(lines).flatten().contains(10u8),
    ensures
        through_last_line(data) == lines,
    decreases data.len(),
{
    let last = data.last();
    lemma_through_last(last, NEWLINE);
    if lines == data.len() {
        let at = last.index_of(10u8);
        assert(last[at] == 10);
    } else {
        let rest = data.skip(lines);
        let front = data.drop_last();
        assert(rest =~= front.skip(lines).push(last));
        front.skip(lines).lemma_flatten_push(last);
        let before = front.skip(lines).flatten();
        if through_last(last, NEWLINE) > 0 {
            let at = through_last(last, NEWLINE) - 1;
            assert(rest.flatten()[before.len() + at] == 10);
        }
        if before.contains(10u8) {
            let at = before.index_of(10u8);
            assert(rest.flatten()[at] == 10);
        }
        assert(front[lines - 1] == data[lines - 1]);
        lemma_line_buffers(front, lines);
    }
}

/// As [`law_write_lines`], for several buffers, of which the last with the end of a line is the one
/// before `lines`, and a host that takes them at one request. Where it does not take all of the
/// buffers with lines, nothing is buffered.
pub proof fn law_write_vectored_lines(writer: Writer, data: Seq<Seq<u8>>, lines: int)
    requires
        writer.output.vectored,
        0 < lines <= data.len(),
        data[lines - 1].contains(10u8),
        !data.skip(lines).flatten().contains(10u8),
    ensures
        ({
            let done = writer.write_vectored(data);
            let flushed = writer.flush_buf();
            let out = flushed.writer.output;
            let at = out.asked.len() as int;
            let head = data.take(lines).flatten();
            let tail = data.skip(lines).flatten();
            let asked = out.asked.push(WriteAsk::WriteVectored(data.take(lines)));
            let now = done.writer;
            let kept = if tail.len() <= writer.capacity {
                tail
            } else {
                tail.take(writer.capacity as int)
            };
            match flushed.result {
                Err(error) => now == flushed.writer && done.result == Err::<nat, Error>(error),
                Ok(_) => {
                    &&& now.output == Output { asked, ..out }
                    &&& now.capacity == writer.capacity
                    &&& at >= out.answers.len() ==> {
                        &&& done.result == Err::<nat, Error>(Error::Unanswered)
                        &&& now.buffered.len() == 0
                    }
                    &&& at < out.answers.len() ==> match out.answers[at] {
                        Ok(count) => if count >= head.len() {
                            &&& done.result == Ok::<nat, Error>(head.len() + kept.len())
                            &&& now.buffered == kept
                        } else {
                            &&& done.result == Ok::<nat, Error>(count as nat)
                            &&& now.buffered.len() == 0
                        },
                        Err(Error::Os(9)) => {
                            &&& done.result == Ok::<nat, Error>(head.len() + kept.len())
                            &&& now.buffered == kept
                        },
                        Err(error) => {
                            &&& done.result == Err::<nat, Error>(error)
                            &&& now.buffered.len() == 0
                        },
                    }
                },
            }
        }),
{
    lemma_line_buffers(data, lines);
    lemma_lines_filled(data);
    law_flush_buf_step(writer);
    let ready = writer.flush_buf().writer;
    let tail = data.skip(lines).flatten();
    if writer.flush_buf().result is Ok {
        let sent = ready.direct_vectored(data.take(lines)).writer;
        assert(tail.take(tail.len() as int) =~= tail);
        assert(forall|part: Seq<u8>| #[trigger] (sent.buffered + part) =~= part);
    }
}

/// A flush passes on what waits, and asks the host to flush. That the stream is not open is no
/// error, and every other error is returned.
pub proof fn law_flush_step(writer: Writer)
    ensures
        ({
            let done = writer.flush();
            let flushed = writer.flush_buf();
            let out = flushed.writer.output;
            let at = out.asked.len() as int;
            match flushed.result {
                Err(error) => done == flushed,
                Ok(_) => {
                    let asked = out.asked.push(WriteAsk::Flush);
                    &&& done.writer == Writer { output: Output { asked, ..out }, ..flushed.writer }
                    &&& done.writer.buffered.len() == 0
                    &&& if at >= out.answers.len() {
                        done.result == Err::<(), Error>(Error::Unanswered)
                    } else {
                        match out.answers[at] {
                            Ok(_) => done.result is Ok,
                            Err(Error::Os(9)) => done.result is Ok,
                            Err(error) => done.result == Err::<(), Error>(error),
                        }
                    }
                },
            }
        }),
{
    law_flush_buf_step(writer);
}

/// As [`law_write_start`], for writing all of the data: what is as large as the buffer is written
/// past it until all is taken.
pub proof fn law_write_all_start(writer: Writer, data: Seq<u8>)
    requires
        writer.buffered.len() <= writer.capacity,
        !data.contains(10u8),
    ensures
        ({
            let done = writer.write_all(data);
            let had = writer.buffered;
            let flushed = writer.flush_buf();
            let sent = writer.output.write_all(data);
            if had.len() > 0 && (had.last() == 10 || had.len() + data.len() > writer.capacity) {
                match flushed.result {
                    Ok(_) => done == flushed.writer.write_all(data),
                    Err(error) => done == flushed,
                }
            } else if data.len() < writer.capacity {
                done.writer == Writer { buffered: had + data, ..writer } && done.result is Ok
            } else {
                &&& done.writer == Writer { output: sent.output, ..writer }
                &&& match sent.result {
                    Ok(_) => done.result is Ok,
                    Err(Error::Os(9)) => done.result is Ok,
                    Err(error) => done.result == Err::<(), Error>(error),
                }
            }
        }),
{
    lemma_no_lines(data);
    assert(data.skip(0) =~= data);
    law_flush_buf_step(writer);
    let flushed = writer.flush_buf().writer;
    law_flush_buf_step(flushed);
}

/// Writing all of the data is writing the lines in it, which end with byte `lines`, and, where that
/// succeeds, what follows them.
pub proof fn law_write_all_parts(writer: Writer, data: Seq<u8>, lines: int)
    requires
        writer.buffered.len() <= writer.capacity,
        0 < lines <= data.len(),
        data[lines - 1] == 10,
        !data.skip(lines).contains(10u8),
    ensures
        ({
            let first = writer.write_all(data.take(lines));
            writer.write_all(data) == match first.result {
                Ok(_) => first.writer.write_all(data.skip(lines)),
                Err(_) => first,
            }
        }),
{
    let head = data.take(lines);
    let tail = data.skip(lines);
    lemma_lines(data, lines);
    assert(head.skip(lines) =~= Seq::empty());
    lemma_lines(head, lines);
    assert(head.take(lines) =~= head);
    lemma_no_lines(tail);
    assert(tail.skip(0) =~= tail);
    let ready = writer.write_lines(head);
    lemma_write_lines_empties(writer, head);
    if ready.result is Ok {
        let none = ready.writer.write_all_buffered(Seq::empty());
        let sent = ready.writer.output.write_all(Seq::empty());
        assert(sent.output == ready.writer.output && sent.result is Ok);
        assert(ready.writer.buffered + Seq::<u8>::empty() =~= ready.writer.buffered);
        assert(none.writer == ready.writer && none.result is Ok);
    }
}

/// After lines were written, nothing waits.
proof fn lemma_write_lines_empties(writer: Writer, data: Seq<u8>)
    requires
        writer.buffered.len() <= writer.capacity,
    ensures
        ({
            let done = writer.write_lines(data);
            &&& done.writer.capacity == writer.capacity
            &&& done.result is Ok ==> done.writer.buffered.len() == 0
        }),
{
    law_flush_buf_step(writer);
    law_flush_buf_step(writer.write_all_buffered(data).writer);
}

/// Lines are written past an empty buffer until all is taken. Otherwise they are passed on together
/// with what waits, if they fit beside it, and after it if not.
pub proof fn law_write_all_line(writer: Writer, data: Seq<u8>)
    requires
        writer.buffered.len() <= writer.capacity,
        data.len() > 0,
        data.last() == 10,
    ensures
        ({
            let done = writer.write_all(data);
            let had = writer.buffered;
            let flushed = writer.flush_buf();
            let sent = writer.output.write_all(data);
            if had.len() == 0 {
                &&& done.writer == Writer { output: sent.output, ..writer }
                &&& match sent.result {
                    Ok(_) => done.result is Ok,
                    Err(Error::Os(9)) => done.result is Ok,
                    Err(error) => done.result == Err::<(), Error>(error),
                }
            } else if had.len() + data.len() <= writer.capacity {
                done == Writer { buffered: had + data, ..writer }.flush_buf()
            } else {
                match flushed.result {
                    Err(_) => done == flushed,
                    Ok(_) => if data.len() >= writer.capacity {
                        done == flushed.writer.write_all(data)
                    } else {
                        done == Writer { buffered: data, ..flushed.writer }.flush_buf()
                    },
                }
            }
        }),
{
    let lines = data.len() as int;
    assert(data.skip(lines) =~= Seq::empty());
    lemma_lines(data, lines);
    assert(data.take(lines) =~= data);
    law_flush_buf_step(writer);
    lemma_write_lines_empties(writer, data);
    let ready = writer.write_lines(data);
    if ready.result is Ok {
        let none = ready.writer.write_all_buffered(Seq::empty());
        let sent = ready.writer.output.write_all(Seq::empty());
        assert(sent.output == ready.writer.output && sent.result is Ok);
        assert(ready.writer.buffered + Seq::<u8>::empty() =~= ready.writer.buffered);
        assert(none.writer == ready.writer && none.result is Ok);
    }
    let flushed = writer.flush_buf();
    if flushed.result is Ok {
        lemma_write_lines_empties(flushed.writer, data);
        law_flush_buf_step(flushed.writer);
        let past = flushed.writer.write_lines(data);
        if past.result is Ok {
            law_flush_buf_step(past.writer);
            let none = past.writer.write_all_buffered(Seq::empty());
            let sent = past.writer.output.write_all(Seq::empty());
            assert(sent.output == past.writer.output && sent.result is Ok);
            assert(past.writer.buffered + Seq::<u8>::empty() =~= past.writer.buffered);
            assert(none.writer == past.writer && none.result is Ok);
        }
        assert(flushed.writer.buffered + data =~= data);
        let after = Writer { buffered: data, ..flushed.writer }.flush_buf();
        assert(after.result is Ok ==> after.result->Ok_0 == ());
    }
    let together = Writer { buffered: writer.buffered + data, ..writer }.flush_buf();
    assert(together.result is Ok ==> together.result->Ok_0 == ());
    let done = writer.write_all(data);
    assert(done.result is Ok ==> done.result->Ok_0 == ());
}

/// Formatted output writes all of each piece, one after the other, up to the first failure.
pub proof fn law_write_pieces_step(writer: Writer, pieces: Seq<Seq<u8>>)
    ensures
        pieces.len() == 0 ==> {
            &&& writer.write_pieces(pieces).writer == writer
            &&& writer.write_pieces(pieces).result is Ok
        },
        pieces.len() > 0 ==> {
            let first = writer.write_all(pieces[0]);
            writer.write_pieces(pieces) == match first.result {
                Ok(_) => first.writer.write_pieces(pieces.drop_first()),
                Err(_) => first,
            }
        },
{
}

/// Writing all that several buffers hold skips the empty ones at the start, writes, and goes on
/// with what was not taken. An interrupted write is repeated. A write that takes nothing, and any
/// other failure, end it.
pub proof fn law_write_all_vectored_step(writer: Writer, data: Seq<Seq<u8>>)
    ensures
        data.len() == 0 ==> {
            &&& writer.write_all_vectored(data).writer == writer
            &&& writer.write_all_vectored(data).result is Ok
        },
        data.len() > 0 && data[0].len() == 0 ==> writer.write_all_vectored(data)
            == writer.write_all_vectored(data.drop_first()),
        data.len() > 0 && data[0].len() > 0 ==> {
            let done = writer.write_all_vectored(data);
            let part = writer.write_vectored(data);
            match part.result {
                Ok(count) => if count == 0 {
                    &&& done.writer == part.writer
                    &&& done.result == Err::<(), Error>(Error::Fault(Fault::WriteBuffer))
                } else {
                    done == part.writer.write_all_vectored(advance(data, count))
                },
                Err(Error::Os(4)) => done == part.writer.write_all_vectored(data),
                Err(Error::Simple(ErrorKind::Interrupted)) => done
                    == part.writer.write_all_vectored(data),
                Err(error) => {
                    &&& done.writer == part.writer
                    &&& done.result == Err::<(), Error>(error)
                },
            }
        },
{
    if data.len() > 0 && data[0].len() > 0 {
        lemma_advance_none(data);
        lemma_write_vectored_progress(writer, data);
        let part = writer.write_vectored(data);
        if part.result is Ok {
            let count = part.result->Ok_0;
            law_advance(data, count);
            let left = advance(data, count);
            if left.len() > 0 {
                lemma_advance_none(left);
            }
        }
    }
}

/// The end of the process: what waits is passed on, nothing is kept, and the buffer is given up.
pub proof fn law_cleanup_step(writer: Writer)
    ensures
        unbuffered(writer).output == writer.flush_buf().writer.output,
        unbuffered(writer).buffered.len() == 0,
        unbuffered(writer).capacity == 0,
{
}

/// Whole lines do not wait: after a write that took `count` bytes, and where the host took all that
/// it was asked to, the host has everything that was written before and the data up to every
/// newline in it. All the lines are among what was taken.
pub proof fn law_write_passes_on(writer: Writer, data: Seq<u8>, count: nat)
    requires
        writer.buffered.len() <= writer.capacity,
        writer.write(data).result == Ok::<nat, Error>(count),
        forall|i: int|
            writer.output.asked.len() <= i < writer.write(data).writer.output.asked.len() ==> {
                &&& i < writer.output.answers.len()
                &&& writer.output.answers[i] matches Ok(taken)
                &&& match #[trigger] writer.write(data).writer.output.asked[i] {
                    WriteAsk::Write(wanted) => taken >= wanted.len(),
                    WriteAsk::WriteVectored(wanted) => taken >= wanted.flatten().len(),
                    WriteAsk::Flush => true,
                }
            },
    ensures
        forall|at: int|
            0 < at <= data.len() && #[trigger] data[at - 1] == 10 ==> {
                &&& at <= count
                &&& (stream(writer) + data.take(at)).is_prefix_of(
                    delivered(writer.write(data).writer.output),
                )
            },
        data.contains(10u8) ==> !writer.write(data).writer.buffered.contains(10u8),
{
    let done = writer.write(data);
    law_write(writer, data);
    if data.contains(10u8) {
        let lines = through_last(data, NEWLINE) as int;
        let newline = data.index_of(10u8);
        lemma_through_last(data, NEWLINE);
        assert(data[newline] == 10);
        assert forall|i: int| 0 <= i < data.skip(lines).len() implies data.skip(lines)[i] != 10 by {
            assert(data.skip(lines)[i] == data[lines + i]);
        }
        law_write_lines(writer, data, lines);
        lemma_flush_buf_grown(writer);
        let out = writer.flush_buf().writer.output;
        let asked = out.asked.len() as int;
        assert(done.writer.output.asked[asked] == WriteAsk::Write(data.take(lines)));
        law_write_lines_taken(writer, data, lines);
        let taken = data.take(count as int);
        assert forall|at: int| 0 < at <= data.len() && #[trigger] data[at - 1] == 10 implies at
            <= count && (stream(writer) + data.take(at)).is_prefix_of(
            delivered(done.writer.output),
        ) by {
            assert(taken[at - 1] == 10);
            lemma_lines_delivered(stream(writer), taken, done.writer, at);
            assert(taken.take(at) =~= data.take(at));
        }
    } else {
        assert forall|at: int| 0 < at <= data.len() implies #[trigger] data[at - 1] != 10 by {
            assert(data.contains(data[at - 1]));
        }
    }
}

/// As [`law_write_passes_on`], for several buffers: a host that takes them at one request has all
/// the lines among the bytes that were taken, whatever it answered.
pub proof fn law_write_vectored_passes_on(writer: Writer, data: Seq<Seq<u8>>, count: nat)
    requires
        writer.output.vectored,
        writer.buffered.len() <= writer.capacity,
        writer.buffered.contains(10u8) ==> writer.buffered.last() == 10,
        writer.write_vectored(data).result == Ok::<nat, Error>(count),
    ensures
        count <= data.flatten().len(),
        forall|at: int|
            0 < at <= count && #[trigger] data.flatten()[at - 1] == 10 ==> (stream(writer)
                + data.flatten().take(at)).is_prefix_of(
                delivered(writer.write_vectored(data).writer.output),
            ),
        !writer.write_vectored(data).writer.buffered.contains(10u8),
{
    let done = writer.write_vectored(data);
    let all = data.flatten();
    let taken = all.take(count as int);
    law_write_vectored(writer, data);
    lemma_write_vectored_ends_lines(writer, data);
    assert forall|at: int| 0 < at <= count && #[trigger] all[at - 1] == 10 implies (stream(writer)
        + all.take(at)).is_prefix_of(delivered(done.writer.output)) by {
        assert(taken[at - 1] == 10);
        lemma_lines_delivered(stream(writer), taken, done.writer, at);
        assert(taken.take(at) =~= all.take(at));
    }
}

} // verus!
