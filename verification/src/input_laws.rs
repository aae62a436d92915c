//! Laws of input: no byte is lost, doubled or moved on its way from the host.
use vstd::prelude::*;
use vstd::utf8::{decode_utf8_encode_utf8, encode_utf8, valid_utf8};

use crate::buf_reader::Reader;
use crate::bytes::{least, lengths, NEWLINE, RETURN};
use crate::error::{forgiven, Error, Fault, EBADF};
use crate::scan::{lemma_through_first, through_first};
use crate::source::{lemma_read_to_end_count, Input, ReadAsk, READ_CHUNK};
use crate::text::{line_of, text_of, text_result};

verus! {

/// The sum of some lengths.
pub open spec fn sum(lens: Seq<nat>) -> nat
    decreases lens.len(),
{
    if lens.len() == 0 {
        0
    } else {
        lens[0] + sum(lens.drop_first())
    }
}

/// The bytes that a request gets from the host, if the answer is `reply`.
pub open spec fn supplied(request: ReadAsk, reply: Result<Seq<u8>, Error>) -> Seq<u8> {
    let len = match request {
        ReadAsk::Read(len) => len,
        ReadAsk::ReadVectored(lens) => sum(lens),
    };
    match reply {
        Ok(data) => data.take(least(data.len(), len) as int),
        Err(_) => Seq::empty(),
    }
}

/// All the bytes that came from the host so far, in order.
pub open spec fn received(input: Input) -> Seq<u8>
    decreases input.asked.len(),
{
    if input.asked.len() == 0 {
        Seq::empty()
    } else {
        let before = Input { asked: input.asked.drop_last(), ..input };
        received(before) + supplied(input.asked.last(), before.reply())
    }
}

/// Whether the host, when it was last asked, had nothing more to give.
pub open spec fn ended(input: Input) -> bool {
    let before = Input { asked: input.asked.drop_last(), ..input };
    &&& input.asked.len() > 0
    &&& forgiven(before.reply(), Seq::empty()) is Ok
    &&& supplied(input.asked.last(), before.reply()).len() == 0
}

/// Whether the host answered the last request with `error`, or has not answered it, where `error`
/// says so.
pub open spec fn failed_with(input: Input, error: Error) -> bool {
    let before = Input { asked: input.asked.drop_last(), ..input };
    input.asked.len() > 0 && before.reply() == Err::<Seq<u8>, Error>(error)
}

/// Whether each byte that was buffered before, or came from the host since, was either handed out
/// as part of `data` or is still buffered, all in the order in which they came.
pub open spec fn conserved(before: Reader, data: Seq<u8>, now: Reader) -> bool {
    let had = received(before.input);
    let has = received(now.input);
    &&& has.len() >= had.len()
    &&& has.take(had.len() as int) == had
    &&& before.unread + has.skip(had.len() as int) == data + now.unread
}

/// Whether the buffer holds no more than fits in it.
pub open spec fn holds(reader: Reader) -> bool {
    reader.unread.len() <= reader.capacity
}

/// A request adds to the received bytes what the host gives.
pub proof fn lemma_received_ask(input: Input, request: ReadAsk)
    ensures
        received(input.ask(request)) == received(input) + supplied(request, input.reply()),
        ended(input.ask(request)) <==> forgiven(input.reply(), Seq::empty()) is Ok && supplied(
            request,
            input.reply(),
        ).len() == 0,
        forall|error: Error| #[trigger]
            failed_with(input.ask(request), error) <==> input.reply() == Err::<Seq<u8>, Error>(
                error,
            ),
{
    let next = input.ask(request);
    assert(next.asked.drop_last() =~= input.asked);
    assert(Input { asked: next.asked.drop_last(), ..next } == input);
}

/// The lengths of buffers add up to the length of all that they hold.
pub proof fn law_sum(data: Seq<Seq<u8>>)
    ensures
        sum(lengths(data)) == data.flatten().len(),
    decreases data.len(),
{
    if data.len() > 0 {
        law_sum(data.drop_first());
        assert(lengths(data).drop_first() =~= lengths(data.drop_first()));
    }
}

/// What was handed out by two operations, one after the other, adds up.
pub proof fn law_conserved_twice(
    before: Reader,
    first: Seq<u8>,
    between: Reader,
    second: Seq<u8>,
    now: Reader,
)
    requires
        conserved(before, first, between),
        conserved(between, second, now),
    ensures
        conserved(before, first + second, now),
{
    let had = received(before.input);
    let mid = received(between.input);
    let has = received(now.input);
    assert(has.take(had.len() as int) =~= has.take(mid.len() as int).take(had.len() as int));
    let came = mid.skip(had.len() as int);
    let more = has.skip(mid.len() as int);
    assert(has.skip(had.len() as int) =~= has.take(mid.len() as int).skip(had.len() as int) + more);
    assert(before.unread + (came + more) =~= (before.unread + came) + more);
    assert((first + between.unread) + more =~= first + (between.unread + more));
    assert(first + (second + now.unread) =~= (first + second) + now.unread);
}

/// An operation that hands out nothing and asks for nothing keeps everything.
proof fn lemma_unchanged(reader: Reader)
    ensures
        conserved(reader, Seq::empty(), reader),
{
    let had = received(reader.input);
    assert(had.take(had.len() as int) =~= had);
    assert(reader.unread + had.skip(had.len() as int) =~= Seq::empty() + reader.unread);
}

/// Filling the buffer hands out nothing, and asks for nothing where something is left in it.
pub proof fn law_fill(reader: Reader)
    requires
        holds(reader),
    ensures
        ({
            let (filled, result) = reader.fill();
            &&& conserved(reader, Seq::empty(), filled)
            &&& holds(filled)
            &&& filled.capacity == reader.capacity
            &&& reader.unread.len() > 0 ==> filled == reader
            &&& result is Ok && filled.unread.len() == 0 ==> ended(filled.input)
            &&& result matches Err(error) ==> {
                &&& filled.unread.len() == 0
                &&& failed_with(filled.input, error)
            }
        }),
{
    if reader.unread.len() > 0 {
        lemma_unchanged(reader);
    } else {
        let request = ReadAsk::Read(reader.capacity);
        let filled = reader.fill().0;
        lemma_received_ask(reader.input, request);
        let had = received(reader.input);
        let has = received(filled.input);
        assert(has.take(had.len() as int) =~= had);
        assert(has.skip(had.len() as int) =~= supplied(request, reader.input.reply()));
        assert(filled.unread =~= supplied(request, reader.input.reply()));
        assert(reader.unread + has.skip(had.len() as int) =~= Seq::empty() + filled.unread);
    }
}

/// Consuming hands out what it consumes.
pub proof fn law_consume(reader: Reader, count: nat)
    requires
        holds(reader),
    ensures
        conserved(
            reader,
            reader.unread.take(least(count, reader.unread.len()) as int),
            reader.consume(count),
        ),
        holds(reader.consume(count)),
{
    let at = least(count, reader.unread.len()) as int;
    let had = received(reader.input);
    assert(had.take(had.len() as int) =~= had);
    assert(reader.unread + had.skip(had.len() as int) =~= reader.unread.take(at)
        + reader.unread.skip(at));
}

/// Reading through the buffer hands out what it reports.
proof fn lemma_read_buffered(reader: Reader, len: nat)
    requires
        holds(reader),
    ensures
        ({
            let taken = reader.read_buffered(len);
            &&& conserved(reader, taken.data, taken.reader)
            &&& holds(taken.reader)
            &&& taken.data.len() <= len
        }),
{
    let (filled, result) = reader.fill();
    law_fill(reader);
    if result is Ok {
        let count = least(len, filled.unread.len());
        law_consume(filled, count);
        law_conserved_twice(
            reader,
            Seq::empty(),
            filled,
            filled.unread.take(count as int),
            filled.consume(count),
        );
        assert(Seq::empty() + filled.unread.take(count as int) =~= filled.unread.take(
            count as int,
        ));
    }
}

/// Reading past an empty buffer hands out what the host gives.
proof fn lemma_read_direct(reader: Reader, request: ReadAsk)
    requires
        reader.unread.len() == 0,
    ensures
        conserved(
            reader,
            supplied(request, reader.input.reply()),
            Reader { input: reader.input.ask(request), ..reader },
        ),
{
    let now = Reader { input: reader.input.ask(request), ..reader };
    let got = supplied(request, reader.input.reply());
    lemma_received_ask(reader.input, request);
    let had = received(reader.input);
    let has = received(now.input);
    assert(has.take(had.len() as int) =~= had);
    assert(has.skip(had.len() as int) =~= got);
    assert(reader.unread + got =~= got + now.unread);
}

/// Reading hands out as many bytes as it reports, and never more than it was asked for. Where
/// something is buffered, it is handed out without a request to the host. Where reading fails, it
/// hands out nothing, nothing is buffered, and the host answered the last request with that error.
/// It hands out nothing without failing only where the input has ended.
pub proof fn law_read(reader: Reader, len: nat)
    requires
        holds(reader),
    ensures
        ({
            let taken = reader.read(len);
            &&& conserved(reader, taken.data, taken.reader)
            &&& holds(taken.reader)
            &&& taken.reader.capacity == reader.capacity
            &&& reader.unread.len() > 0 ==> taken.reader.input == reader.input && taken.result is Ok
            &&& match taken.result {
                Ok(count) => count == taken.data.len() && count <= len,
                Err(error) => {
                    &&& taken.data.len() == 0
                    &&& taken.reader.unread.len() == 0
                    &&& failed_with(taken.reader.input, error)
                },
            }
            &&& taken.result == Ok::<nat, Error>(0) && len > 0 ==> {
                &&& ended(taken.reader.input)
                &&& taken.reader.unread.len() == 0
            }
        }),
{
    law_fill(reader);
    if reader.unread.len() == 0 && len >= reader.capacity {
        let request = ReadAsk::Read(len);
        lemma_read_direct(reader, request);
        lemma_received_ask(reader.input, request);
        assert(reader.read(len).data =~= supplied(request, reader.input.reply()));
    } else {
        lemma_read_buffered(reader, len);
    }
}

/// As [`law_read`], for several buffers: `data` is what they hold before.
pub proof fn law_read_vectored(reader: Reader, data: Seq<Seq<u8>>)
    requires
        holds(reader),
    ensures
        ({
            let len = data.flatten().len();
            let taken = reader.read_vectored(lengths(data), len);
            &&& conserved(reader, taken.data, taken.reader)
            &&& holds(taken.reader)
            &&& taken.reader.capacity == reader.capacity
            &&& reader.unread.len() > 0 ==> taken.reader.input == reader.input && taken.result is Ok
            &&& match taken.result {
                Ok(count) => count == taken.data.len() && count <= len,
                Err(error) => {
                    &&& taken.data.len() == 0
                    &&& taken.reader.unread.len() == 0
                    &&& failed_with(taken.reader.input, error)
                },
            }
            &&& taken.result == Ok::<nat, Error>(0) && len > 0 ==> {
                &&& ended(taken.reader.input)
                &&& taken.reader.unread.len() == 0
            }
        }),
{
    let len = data.flatten().len();
    law_fill(reader);
    if reader.unread.len() == 0 && len >= reader.capacity {
        let request = ReadAsk::ReadVectored(lengths(data));
        law_sum(data);
        lemma_read_direct(reader, request);
        lemma_received_ask(reader.input, request);
        assert(reader.read_vectored(lengths(data), len).data =~= supplied(
            request,
            reader.input.reply(),
        ));
    } else {
        lemma_read_buffered(reader, len);
    }
}

/// Reading a given number of bytes hands out exactly that many, or fails with fewer: because the
/// input ended, or because a request failed other than by being interrupted.
pub proof fn law_read_exact(reader: Reader, len: nat)
    requires
        holds(reader),
    ensures
        ({
            let taken = reader.read_exact(len);
            &&& conserved(reader, taken.data, taken.reader)
            &&& holds(taken.reader)
            &&& taken.reader.capacity == reader.capacity
            &&& match taken.result {
                Ok(count) => count == len && taken.data.len() == len,
                Err(error) => {
                    &&& taken.data.len() < len
                    &&& taken.reader.unread.len() == 0
                    &&& !error.interrupted()
                    &&& (error == Error::Fault(Fault::FillBuffer) && ended(taken.reader.input))
                        || failed_with(taken.reader.input, error)
                },
            }
        }),
    decreases reader.input.left(), len,
{
    if len == 0 {
        lemma_unchanged(reader);
    } else {
        let part = reader.read(len);
        law_read(reader, len);
        match part.result {
            Ok(count) => {
                if count > 0 {
                    let more = (len - count) as nat;
                    law_read_exact(part.reader, more);
                    let rest = part.reader.read_exact(more);
                    law_conserved_twice(reader, part.data, part.reader, rest.data, rest.reader);
                }
            },
            Err(error) => {
                if error.interrupted() {
                    law_read_exact(part.reader, len);
                    let rest = part.reader.read_exact(len);
                    law_conserved_twice(reader, part.data, part.reader, rest.data, rest.reader);
                    assert(part.data + rest.data =~= rest.data);
                }
            },
        }
    }
}

/// Reading to the end from the host hands out all that it gives.
proof fn lemma_read_to_end(reader: Reader)
    requires
        reader.unread.len() == 0,
    ensures
        ({
            let got = reader.input.read_to_end();
            let now = Reader { input: got.input, ..reader };
            &&& conserved(reader, got.data, now)
            &&& got.result is Ok ==> ended(got.input)
            &&& got.result matches Err(error) ==> {
                &&& !error.interrupted()
                &&& failed_with(got.input, error)
                &&& error.ebadf() ==> ended(got.input)
            }
        }),
    decreases reader.input.left(),
{
    let input = reader.input;
    let request = ReadAsk::Read(READ_CHUNK as nat);
    let next = Reader { input: input.ask(request), ..reader };
    let part = supplied(request, input.reply());
    lemma_read_direct(reader, request);
    lemma_received_ask(input, request);
    if input.left() > 0 {
        let rest = next.input.read_to_end();
        let now = Reader { input: rest.input, ..reader };
        lemma_read_to_end(next);
        law_conserved_twice(reader, part, next, rest.data, now);
        match input.reply_within(READ_CHUNK as nat) {
            Ok(data) => {
                assert(part =~= data);
                if data.len() == 0 {
                    assert(part =~= Seq::empty());
                }
            },
            Err(_) => {
                assert(part + rest.data =~= rest.data);
            },
        }
    }
}

/// Reading to the end hands out all that was buffered and all that the host gives, and leaves the
/// buffer empty. It fails only if a request did, other than by being interrupted. Where it
/// succeeds, the host had nothing more to give, and it reports as many bytes as it hands out,
/// unless the host closed the stream.
pub proof fn law_read_to_end(reader: Reader)
    requires
        holds(reader),
    ensures
        ({
            let taken = reader.read_to_end();
            &&& conserved(reader, taken.data, taken.reader)
            &&& holds(taken.reader)
            &&& taken.reader.capacity == reader.capacity
            &&& taken.reader.unread.len() == 0
            &&& match taken.result {
                Ok(count) => {
                    &&& ended(taken.reader.input)
                    &&& count <= taken.data.len()
                    &&& reader.input.read_to_end().result is Ok ==> count == taken.data.len()
                },
                Err(error) => !error.interrupted() && failed_with(taken.reader.input, error),
            }
        }),
{
    let rest = reader.input.read_to_end();
    let empty = reader.consume(reader.unread.len());
    let now = Reader { input: rest.input, ..empty };
    law_consume(reader, reader.unread.len());
    assert(empty.unread =~= Seq::empty());
    lemma_read_to_end(empty);
    lemma_read_to_end_count(reader.input);
    assert(reader.unread.take(reader.unread.len() as int) =~= reader.unread);
    law_conserved_twice(reader, reader.unread, empty, rest.data, now);
}

/// Reading up to a byte hands out the input up to and with the first such byte, or all of it where
/// there is none. Where it fails, a request did, other than by being interrupted, and the byte was
/// not among what came before.
pub proof fn law_read_until(reader: Reader, byte: u8)
    requires
        holds(reader),
    ensures
        ({
            let taken = reader.read_until(byte);
            let data = taken.data;
            &&& conserved(reader, data, taken.reader)
            &&& holds(taken.reader)
            &&& taken.reader.capacity == reader.capacity
            &&& forall|i: int| 0 <= i < data.len() - 1 ==> data[i] != byte
            &&& match taken.result {
                Ok(count) => {
                    &&& count == data.len()
                    &&& data.len() == 0 || data.last() != byte ==> {
                        &&& ended(taken.reader.input)
                        &&& taken.reader.unread.len() == 0
                    }
                },
                Err(error) => {
                    &&& !error.interrupted()
                    &&& failed_with(taken.reader.input, error)
                    &&& taken.reader.unread.len() == 0
                    &&& data.len() > 0 ==> data.last() != byte
                },
            }
        }),
    decreases reader.input.left(), reader.unread.len(),
{
    let (filled, result) = reader.fill();
    law_fill(reader);
    lemma_through_first(filled.unread, byte);
    match result {
        Ok(_) => {
            match through_first(filled.unread, byte) {
                Some(len) => {
                    let data = filled.unread.take(len as int);
                    law_consume(filled, len);
                    law_conserved_twice(reader, Seq::empty(), filled, data, filled.consume(len));
                    assert(Seq::empty() + data =~= data);
                },
                None => {
                    if filled.unread.len() > 0 {
                        let next = filled.consume(filled.unread.len());
                        law_consume(filled, filled.unread.len());
                        assert(filled.unread.take(filled.unread.len() as int) =~= filled.unread);
                        law_conserved_twice(reader, Seq::empty(), filled, filled.unread, next);
                        assert(Seq::empty() + filled.unread =~= filled.unread);
                        law_read_until(next, byte);
                        let rest = next.read_until(byte);
                        law_conserved_twice(
                            reader,
                            filled.unread,
                            next,
                            rest.data,
                            rest.reader,
                        );
                        let data = filled.unread + rest.data;
                        assert forall|i: int| 0 <= i < data.len() - 1 implies data[i] != byte by {
                            if i >= filled.unread.len() {
                                assert(data[i] == rest.data[i - filled.unread.len()]);
                            }
                        }
                    }
                },
            }
        },
        Err(error) => {
            if error.interrupted() {
                law_read_until(filled, byte);
                let rest = filled.read_until(byte);
                law_conserved_twice(reader, Seq::empty(), filled, rest.data, rest.reader);
                assert(Seq::empty() + rest.data =~= rest.data);
            }
        },
    }
}

/// What is buffered is handed out without a request to the host.
pub proof fn law_buffered_first(reader: Reader, byte: u8, len: nat)
    requires
        holds(reader),
        reader.unread.len() > 0,
    ensures
        len <= reader.unread.len() ==> reader.read_exact(len).reader.input == reader.input,
        reader.unread.contains(byte) ==> reader.read_until(byte).reader.input == reader.input,
{
    if reader.unread.contains(byte) {
        lemma_through_first(reader.unread, byte);
    }
    if 0 < len <= reader.unread.len() {
        let part = reader.read(len);
        law_read(reader, len);
        assert(part.result == Ok::<nat, Error>(len));
        assert(part.reader.read_exact(0).reader == part.reader);
    }
}

/// A program whose standard input is closed reads nothing, and does not fail, unless it insists on
/// a number of bytes.
pub proof fn law_closed_input(reader: Reader, byte: u8, lens: Seq<nat>, len: nat)
    requires
        reader.unread.len() == 0,
        reader.input.reply() == Err::<Seq<u8>, Error>(Error::Os(EBADF)),
    ensures
        reader.fill().1 is Ok,
        reader.fill().0.unread.len() == 0,
        reader.read(len).result == Ok::<nat, Error>(0),
        reader.read(len).data.len() == 0,
        reader.read_vectored(lens, len).result == Ok::<nat, Error>(0),
        reader.read_vectored(lens, len).data.len() == 0,
        len > 0 ==> reader.read_exact(len).result == Err::<nat, Error>(
            Error::Fault(Fault::FillBuffer),
        ),
        reader.read_exact(0).result == Ok::<nat, Error>(0),
        reader.read_exact(len).data.len() == 0,
        reader.read_to_end().result == Ok::<nat, Error>(0),
        reader.read_to_end().data.len() == 0,
        reader.read_until(byte).result == Ok::<nat, Error>(0),
        reader.read_until(byte).data.len() == 0,
{
    lemma_through_first(reader.fill().0.unread, byte);
}

/// What is read as text is what the bytes encode: encoding it again gives the bytes that were
/// handed out. A line as text reports as many bytes as it takes. Reading text succeeds wherever
/// reading bytes did and the bytes are UTF-8.
pub proof fn law_read_text(reader: Reader)
    requires
        holds(reader),
    ensures
        ({
            let line = reader.read_until(NEWLINE);
            &&& text_result(line.data, line.result) matches Ok(count) ==> {
                &&& encode_utf8(text_of(line.data)) == line.data
                &&& count == line.data.len()
            }
            &&& line.result is Ok && valid_utf8(line.data) ==> text_result(line.data, line.result)
                == line.result
        }),
        ({
            let all = reader.read_to_end();
            &&& text_result(all.data, all.result) is Ok ==> encode_utf8(text_of(all.data))
                == all.data
            &&& all.result is Ok && valid_utf8(all.data) ==> text_result(all.data, all.result)
                == all.result
        }),
{
    let line = reader.read_until(NEWLINE);
    let all = reader.read_to_end();
    law_read_until(reader, NEWLINE);
    if valid_utf8(line.data) {
        decode_utf8_encode_utf8(line.data);
    }
    if valid_utf8(all.data) {
        decode_utf8_encode_utf8(all.data);
    }
}

/// A line without what ends it holds no newline, and all that was taken off is a newline, or a
/// carriage return and a newline. Only the last line of the input may lack it.
pub proof fn law_line(reader: Reader)
    requires
        holds(reader),
        reader.read_until(NEWLINE).result is Ok,
    ensures
        ({
            let taken = reader.read_until(NEWLINE);
            let line = line_of(taken.data);
            &&& !line.contains(NEWLINE)
            &&& {
                ||| taken.data == line + seq![NEWLINE] && (line.len() == 0 || line.last() != RETURN)
                ||| taken.data == line + seq![RETURN, NEWLINE]
                ||| taken.data == line && ended(taken.reader.input)
            }
        }),
{
    let taken = reader.read_until(NEWLINE);
    let data = taken.data;
    let line = line_of(data);
    law_read_until(reader, NEWLINE);
    if data.len() > 0 && data.last() == NEWLINE {
        let whole = data.drop_last();
        assert(data =~= whole + seq![NEWLINE]);
        if whole.len() > 0 && whole.last() == RETURN {
            assert(data =~= line + seq![RETURN, NEWLINE]);
        }
    }
}

} // verus!
