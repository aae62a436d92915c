//! Laws of the host's ends: what a request is, which answer it gets, and which bytes it moves.
use vstd::prelude::*;

use crate::basic_laws::law_advance;
use crate::bytes::{advance, lemma_advance};
use crate::error::{Error, ErrorKind, Fault};
use crate::input_laws::{lemma_received_ask, received, sum};
use crate::output_laws::{delivered, lemma_delivered_ask};
use crate::raw::{StderrRaw, StdinRaw, StdoutRaw};
use crate::sink::{Output, Sink, WriteAsk, WriteRequest};
use crate::source::{
    answer_view, count_of, data_of, Input, ReadAsk, ReadRequest, Source, READ_CHUNK,
};
use crate::stderr::write_pieces;

verus! {

/// A request for input says how many bytes are wanted, for each buffer.
pub proof fn law_read_request(len: usize, lens: Vec<usize>)
    ensures
        ReadRequest::Read(len)@ == ReadAsk::Read(len as nat),
        ReadRequest::ReadVectored(lens)@ matches ReadAsk::ReadVectored(wanted) && wanted.len()
            == lens@.len() && forall|i: int|
            0 <= i < lens@.len() ==> #[trigger] wanted[i] == lens@[i],
{
}

/// A request for output holds the bytes to be written, for each buffer.
pub proof fn law_write_request(data: Vec<u8>, several: Vec<Vec<u8>>)
    ensures
        WriteRequest::Write(data)@ == WriteAsk::Write(data@),
        WriteRequest::WriteVectored(several)@ matches WriteAsk::WriteVectored(bufs) && bufs.len()
            == several@.len() && forall|i: int|
            0 <= i < several@.len() ==> #[trigger] bufs[i] == several@[i]@,
        WriteRequest::Flush@ == WriteAsk::Flush,
{
}

/// The host's end of input holds the answers and the requests, in order, and each answer as it
/// was given.
pub proof fn law_source(source: Source)
    ensures
        source@.vectored == source.vectored,
        source@.answers.len() == source.answers@.len(),
        source@.asked.len() == source.asked@.len(),
        forall|i: int|
            0 <= i < source.answers@.len() ==> match source.answers@[i] {
                Ok(data) => #[trigger] source@.answers[i] == Ok::<Seq<u8>, Error>(data@),
                Err(error) => source@.answers[i] == Err::<Seq<u8>, Error>(error),
            },
        forall|i: int|
            0 <= i < source.asked@.len() ==> #[trigger] source@.asked[i] == source.asked@[i]@,
        StdinRaw(source)@ == source@,
{
}

/// As [`law_source`], for output.
pub proof fn law_sink(sink: Sink)
    ensures
        sink@.vectored == sink.vectored,
        sink@.answers == sink.answers@,
        sink@.asked.len() == sink.asked@.len(),
        forall|i: int|
            0 <= i < sink.asked@.len() ==> #[trigger] sink@.asked[i] == sink.asked@[i]@,
        StdoutRaw(sink)@ == sink@,
        StderrRaw(sink)@ == sink@,
{
}

/// An answer is taken as it is, and so are the bytes in it, their number and the error.
pub proof fn law_answer(answer: Result<Vec<u8>, Error>, data: Seq<u8>, error: Error)
    ensures
        answer_view(answer) == match answer {
            Ok(bytes) => Ok::<Seq<u8>, Error>(bytes@),
            Err(error) => Err(error),
        },
        data_of(Ok(data)) == data,
        data_of(Err(error)).len() == 0,
        count_of(Ok(data)) == Ok::<nat, Error>(data.len()),
        count_of(Err(error)) == Err::<nat, Error>(error),
{
}

/// A request for input is added to those before it, and changes nothing else. Its answer is the one
/// with the same index; if there is none yet, it fails so. Of an answer that is longer than what
/// was asked for, the start is taken.
pub proof fn law_ask_input(input: Input, request: ReadAsk, len: nat)
    ensures
        input.ask(request).asked == input.asked.push(request),
        input.ask(request).answers == input.answers,
        input.ask(request).vectored == input.vectored,
        input.after_read(len) == input.ask(ReadAsk::Read(len)),
        input.asked.len() >= input.answers.len() ==> {
            &&& input.reply() == Err::<Seq<u8>, Error>(Error::Unanswered)
            &&& input.reply_within(len) == Err::<Seq<u8>, Error>(Error::Unanswered)
            &&& input.left() == 0
        },
        input.asked.len() < input.answers.len() ==> {
            &&& input.left() == input.answers.len() - input.asked.len()
            &&& input.reply() == input.answers[input.asked.len() as int]
            &&& match input.answers[input.asked.len() as int] {
                Ok(data) => input.reply_within(len) == Ok::<Seq<u8>, Error>(
                    if data.len() <= len {
                        data
                    } else {
                        data.take(len as int)
                    },
                ),
                Err(error) => input.reply_within(len) == Err::<Seq<u8>, Error>(error),
            }
        },
{
    if input.reply() is Ok {
        let data = input.reply()->Ok_0;
        assert(data.take(data.len() as int) =~= data);
    }
}

/// As [`law_ask_input`], for output: an answer that more was written than asked for counts as all.
pub proof fn law_ask_output(output: Output, request: WriteAsk, len: nat)
    ensures
        output.ask(request).asked == output.asked.push(request),
        output.ask(request).answers == output.answers,
        output.ask(request).vectored == output.vectored,
        output.asked.len() >= output.answers.len() ==> {
            &&& output.reply() == Err::<nat, Error>(Error::Unanswered)
            &&& output.reply_within(len) == Err::<nat, Error>(Error::Unanswered)
            &&& output.reply_flush() == Err::<(), Error>(Error::Unanswered)
            &&& output.left() == 0
        },
        output.asked.len() < output.answers.len() ==> {
            &&& output.left() == output.answers.len() - output.asked.len()
            &&& match output.answers[output.asked.len() as int] {
                Ok(count) => {
                    &&& output.reply() == Ok::<nat, Error>(count as nat)
                    &&& output.reply_within(len) == Ok::<nat, Error>(
                        if count <= len {
                            count as nat
                        } else {
                            len
                        },
                    )
                    &&& output.reply_flush() is Ok
                },
                Err(error) => {
                    &&& output.reply() == Err::<nat, Error>(error)
                    &&& output.reply_within(len) == Err::<nat, Error>(error)
                    &&& output.reply_flush() == Err::<(), Error>(error)
                },
            }
        },
{
}

/// What the host has: nothing at first. A request to write adds as many bytes from its start as
/// the host answers, all of them where the stream is not open, and none where it fails otherwise
/// or is not answered. A flush adds none.
pub proof fn law_delivered(output: Output, data: Seq<u8>, several: Seq<Seq<u8>>)
    ensures
        output.asked.len() == 0 ==> delivered(output).len() == 0,
        delivered(Output { asked: output.asked.push(WriteAsk::Flush), ..output }) == delivered(
            output,
        ),
        ({
            let next = Output { asked: output.asked.push(WriteAsk::Write(data)), ..output };
            let at = output.asked.len() as int;
            if at >= output.answers.len() {
                delivered(next) == delivered(output)
            } else {
                match output.answers[at] {
                    Ok(count) => delivered(next) == delivered(output) + if count <= data.len() {
                        data.take(count as int)
                    } else {
                        data
                    },
                    Err(Error::Os(9)) => delivered(next) == delivered(output) + data,
                    Err(_) => delivered(next) == delivered(output),
                }
            }
        }),
        ({
            let asked = output.asked.push(WriteAsk::WriteVectored(several));
            let next = Output { asked, ..output };
            let at = output.asked.len() as int;
            let all = several.flatten();
            if at >= output.answers.len() {
                delivered(next) == delivered(output)
            } else {
                match output.answers[at] {
                    Ok(count) => delivered(next) == delivered(output) + if count <= all.len() {
                        all.take(count as int)
                    } else {
                        all
                    },
                    Err(Error::Os(9)) => delivered(next) == delivered(output) + all,
                    Err(_) => delivered(next) == delivered(output),
                }
            }
        }),
{
    let all = several.flatten();
    lemma_delivered_ask(output, WriteAsk::Flush);
    lemma_delivered_ask(output, WriteAsk::Write(data));
    lemma_delivered_ask(output, WriteAsk::WriteVectored(several));
    assert(data.take(data.len() as int) =~= data);
    assert(all.take(all.len() as int) =~= all);
    assert(Seq::<u8>::empty().take(0) =~= Seq::empty());
    assert(delivered(output) + Seq::<u8>::empty() =~= delivered(output));
    assert(delivered(output) + data.take(0) =~= delivered(output));
}

/// What came from the host: nothing at first. A request adds the bytes of its answer, from the
/// start and no more than it asked for, and none where it fails or is not answered.
pub proof fn law_received(input: Input, len: nat, lens: Seq<nat>)
    ensures
        input.asked.len() == 0 ==> received(input).len() == 0,
        ({
            let next = Input { asked: input.asked.push(ReadAsk::Read(len)), ..input };
            let at = input.asked.len() as int;
            if at < input.answers.len() && input.answers[at] is Ok {
                let data = input.answers[at]->Ok_0;
                received(next) == received(input) + if data.len() <= len {
                    data
                } else {
                    data.take(len as int)
                }
            } else {
                received(next) == received(input)
            }
        }),
        ({
            let next = Input { asked: input.asked.push(ReadAsk::ReadVectored(lens)), ..input };
            let at = input.asked.len() as int;
            if at < input.answers.len() && input.answers[at] is Ok {
                let data = input.answers[at]->Ok_0;
                received(next) == received(input) + if data.len() <= sum(lens) {
                    data
                } else {
                    data.take(sum(lens) as int)
                }
            } else {
                received(next) == received(input)
            }
        }),
{
    lemma_received_ask(input, ReadAsk::Read(len));
    lemma_received_ask(input, ReadAsk::ReadVectored(lens));
    assert(received(input) + Seq::<u8>::empty() =~= received(input));
    if input.reply() is Ok {
        let data = input.reply()->Ok_0;
        assert(data.take(data.len() as int) =~= data);
    }
}

/// Reading to the end asks again until the host says that the input has ended. Each answer is kept
/// as a whole, an interrupted request is repeated, and any other failure ends the reading with what
/// came before.
pub proof fn law_raw_read_to_end(input: Input)
    ensures
        ({
            let asked = input.asked.push(ReadAsk::Read(READ_CHUNK as nat));
            let next = Input { asked, ..input };
            let at = input.asked.len() as int;
            let got = input.read_to_end();
            let again = next.read_to_end();
            if at >= input.answers.len() {
                &&& got.input == next
                &&& got.data.len() == 0
                &&& got.result == Err::<nat, Error>(Error::Unanswered)
            } else {
                match input.answers[at] {
                    Ok(data) => if data.len() == 0 {
                        &&& got.input == next
                        &&& got.data.len() == 0
                        &&& got.result == Ok::<nat, Error>(0)
                    } else {
                        let part = if data.len() <= READ_CHUNK {
                            data
                        } else {
                            data.take(READ_CHUNK as int)
                        };
                        &&& got.input == again.input
                        &&& got.data == part + again.data
                        &&& match again.result {
                            Ok(count) => got.result == Ok::<nat, Error>(part.len() + count),
                            Err(error) => got.result == Err::<nat, Error>(error),
                        }
                    },
                    Err(Error::Os(4)) => got == again,
                    Err(Error::Simple(ErrorKind::Interrupted)) => got == again,
                    Err(error) => {
                        &&& got.input == next
                        &&& got.data.len() == 0
                        &&& got.result == Err::<nat, Error>(error)
                    },
                }
            }
        }),
{
    if input.reply() is Ok {
        let data = input.reply()->Ok_0;
        assert(data.take(data.len() as int) =~= data);
    }
}

/// Writing all asks the host to write everything that it has not taken yet, until nothing is left.
/// An interrupted request is repeated. An answer that nothing was written, and any other failure,
/// end the writing.
pub proof fn law_raw_write_all_step(output: Output, data: Seq<u8>)
    ensures
        ({
            let next = Output { asked: output.asked.push(WriteAsk::Write(data)), ..output };
            let at = output.asked.len() as int;
            let drained = output.write_all(data);
            if data.len() == 0 {
                drained.output == output && drained.result is Ok
            } else if at >= output.answers.len() {
                &&& drained.output == next
                &&& drained.result == Err::<(), Error>(Error::Unanswered)
            } else {
                match output.answers[at] {
                    Ok(count) => if count == 0 {
                        &&& drained.output == next
                        &&& drained.result == Err::<(), Error>(Error::Fault(Fault::WriteBuffer))
                    } else if count >= data.len() {
                        drained.output == next && drained.result is Ok
                    } else {
                        drained == next.write_all(data.skip(count as int))
                    },
                    Err(Error::Os(4)) => drained == next.write_all(data),
                    Err(Error::Simple(ErrorKind::Interrupted)) => drained == next.write_all(data),
                    Err(error) => {
                        &&& drained.output == next
                        &&& drained.result == Err::<(), Error>(error)
                    },
                }
            }
        }),
{
    let next = output.ask(WriteAsk::Write(data));
    let none = next.write_all(data.skip(data.len() as int));
    assert(none.output == next && none.result is Ok);
}

/// As [`law_raw_write_all_step`], for several buffers, of which the empty ones at the start are not
/// sent.
pub proof fn law_raw_write_all_vectored_step(output: Output, data: Seq<Seq<u8>>)
    ensures
        data.len() == 0 ==> {
            &&& output.write_all_vectored(data).output == output
            &&& output.write_all_vectored(data).result is Ok
        },
        data.len() > 0 && data[0].len() == 0 ==> output.write_all_vectored(data)
            == output.write_all_vectored(data.drop_first()),
        data.len() > 0 && data[0].len() > 0 ==> {
            let asked = output.asked.push(WriteAsk::WriteVectored(data));
            let next = Output { asked, ..output };
            let at = output.asked.len() as int;
            let drained = output.write_all_vectored(data);
            if at >= output.answers.len() {
                &&& drained.output == next
                &&& drained.result == Err::<(), Error>(Error::Unanswered)
            } else {
                match output.answers[at] {
                    Ok(count) => if count == 0 {
                        &&& drained.output == next
                        &&& drained.result == Err::<(), Error>(Error::Fault(Fault::WriteBuffer))
                    } else if count >= data.flatten().len() {
                        drained.output == next && drained.result is Ok
                    } else {
                        drained == next.write_all_vectored(advance(data, count as nat))
                    },
                    Err(Error::Os(4)) => drained == next.write_all_vectored(data),
                    Err(Error::Simple(ErrorKind::Interrupted)) => drained
                        == next.write_all_vectored(data),
                    Err(error) => {
                        &&& drained.output == next
                        &&& drained.result == Err::<(), Error>(error)
                    },
                }
            }
        },
{
    if data.len() > 0 && data[0].len() > 0 {
        lemma_advance_none(data);
        lemma_flatten_first(data);
        let at = output.asked.len() as int;
        if at < output.answers.len() && output.answers[at] is Ok {
            let count = output.answers[at]->Ok_0 as nat;
            let len = data.flatten().len();
            lemma_advance(data, len);
            let none = output.ask(WriteAsk::WriteVectored(data)).drain_vectored(advance(data, len));
            assert(none.output == output.ask(WriteAsk::WriteVectored(data)));
            assert(none.result is Ok);
            if 0 < count < len {
                lemma_advance(data, count);
                law_advance(data, count);
                lemma_advance_none(advance(data, count));
            }
        }
    }
}

/// Buffers of which the first holds something are not changed by taking nothing from them.
pub proof fn lemma_advance_none(data: Seq<Seq<u8>>)
    requires
        data.len() > 0,
        data[0].len() > 0,
    ensures
        advance(data, 0) == data,
{
    assert(data[0].skip(0) =~= data[0]);
    assert(seq![data[0]] + data.drop_first() =~= data);
}

/// Several buffers hold at least what the first of them holds.
proof fn lemma_flatten_first(data: Seq<Seq<u8>>)
    requires
        data.len() > 0,
    ensures
        data.flatten() == data[0] + data.drop_first().flatten(),
        data.flatten().len() >= data[0].len(),
{
}

/// Formatted output past all buffers writes all of each piece, one after the other, up to the first
/// failure. Standard error forgives each piece that the stream is not open.
pub proof fn law_raw_write_pieces_step(output: Output, pieces: Seq<Seq<u8>>)
    ensures
        pieces.len() == 0 ==> {
            &&& output.write_pieces(pieces).output == output
            &&& output.write_pieces(pieces).result is Ok
            &&& write_pieces(output, pieces).0 == output
            &&& write_pieces(output, pieces).1 is Ok
        },
        pieces.len() > 0 ==> {
            let first = output.write_all(pieces[0]);
            let others = pieces.drop_first();
            let done = output.write_pieces(pieces);
            let sent = write_pieces(output, pieces);
            match first.result {
                Ok(_) => {
                    &&& done.output == first.output.write_pieces(others).output
                    &&& done.result == first.output.write_pieces(others).result
                    &&& sent == write_pieces(first.output, others)
                },
                Err(error) => {
                    &&& done.output == first.output
                    &&& done.result == Err::<(), Error>(error)
                    &&& error == Error::Os(9) ==> sent == write_pieces(first.output, others)
                    &&& error != Error::Os(9) ==> sent == (
                        first.output,
                        Err::<(), Error>(error),
                    )
                },
            }
        },
{
}

} // verus!
