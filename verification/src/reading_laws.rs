//! Laws of what each read asks of the host, hands out and leaves in the buffer.
use vstd::prelude::*;

use crate::buf_reader::Reader;
use crate::error::{Error, ErrorKind, Fault};
use crate::scan::{lemma_through_first, through_first};
use crate::source::{Input, ReadAsk};

verus! {

/// Filling a buffer that is not empty changes nothing. An empty buffer is filled by one request for
/// as much as it holds, and gets what the host answers; that the stream is not open counts as the
/// end of the input.
pub proof fn law_fill_step(reader: Reader)
    ensures
        ({
            let (filled, result) = reader.fill();
            let at = reader.input.asked.len() as int;
            let asked = reader.input.asked.push(ReadAsk::Read(reader.capacity));
            if reader.unread.len() > 0 {
                filled == reader && result is Ok
            } else {
                &&& filled.capacity == reader.capacity
                &&& filled.input == Input { asked, ..reader.input }
                &&& if at >= reader.input.answers.len() {
                    result == Err::<(), Error>(Error::Unanswered) && filled.unread.len() == 0
                } else {
                    match reader.input.answers[at] {
                        Ok(data) => {
                            &&& result is Ok
                            &&& filled.unread == if data.len() <= reader.capacity {
                                data
                            } else {
                                data.take(reader.capacity as int)
                            }
                        },
                        Err(Error::Os(9)) => result is Ok && filled.unread.len() == 0,
                        Err(error) => {
                            &&& result == Err::<(), Error>(error)
                            &&& filled.unread.len() == 0
                        },
                    }
                }
            }
        }),
{
    lemma_whole(reader.input);
}

/// An answer that is not too long is taken as a whole.
proof fn lemma_whole(input: Input)
    ensures
        input.reply() matches Ok(data) ==> data.take(data.len() as int) == data,
{
    if input.reply() is Ok {
        let data = input.reply()->Ok_0;
        assert(data.take(data.len() as int) =~= data);
    }
}

/// Consuming takes bytes off the start of the buffer, or all of them where there are fewer.
pub proof fn law_consume_step(reader: Reader, count: nat)
    ensures
        ({
            let now = reader.consume(count);
            &&& now.input == reader.input
            &&& now.capacity == reader.capacity
            &&& count <= reader.unread.len() ==> now.unread == reader.unread.skip(count as int)
            &&& count >= reader.unread.len() ==> now.unread.len() == 0
        }),
{
}

/// What is buffered is handed out first, as much as is wanted, without a request. With an empty
/// buffer, one request is made: for what is wanted, if that is at least as large as the buffer, and
/// else for a whole buffer, of which the start is handed out and the rest is kept. That the stream
/// is not open counts as the end of the input, and every other error is returned.
pub proof fn law_read_step(reader: Reader, len: nat)
    ensures
        ({
            let taken = reader.read(len);
            let now = taken.reader;
            let at = reader.input.asked.len() as int;
            let wanted = if len >= reader.capacity {
                len
            } else {
                reader.capacity
            };
            let asked = reader.input.asked.push(ReadAsk::Read(wanted));
            &&& now.capacity == reader.capacity
            &&& if reader.unread.len() > 0 {
                &&& now.input == reader.input
                &&& taken.result == Ok::<nat, Error>(taken.data.len())
                &&& taken.data + now.unread == reader.unread
                &&& taken.data.len() == if len <= reader.unread.len() {
                    len
                } else {
                    reader.unread.len()
                }
            } else {
                &&& now.input == Input { asked, ..reader.input }
                &&& if at >= reader.input.answers.len() {
                    &&& taken.result == Err::<nat, Error>(Error::Unanswered)
                    &&& taken.data.len() == 0 && now.unread.len() == 0
                } else {
                    match reader.input.answers[at] {
                        Ok(data) => {
                            let got = if data.len() <= wanted {
                                data
                            } else {
                                data.take(wanted as int)
                            };
                            &&& taken.result == Ok::<nat, Error>(taken.data.len())
                            &&& taken.data + now.unread == got
                            &&& taken.data.len() == if len <= got.len() {
                                len
                            } else {
                                got.len()
                            }
                        },
                        Err(Error::Os(9)) => {
                            &&& taken.result == Ok::<nat, Error>(0)
                            &&& taken.data.len() == 0 && now.unread.len() == 0
                        },
                        Err(error) => {
                            &&& taken.result == Err::<nat, Error>(error)
                            &&& taken.data.len() == 0 && now.unread.len() == 0
                        },
                    }
                }
            }
        }),
{
    lemma_whole(reader.input);
    let taken = reader.read(len);
    let filled = reader.fill().0;
    if reader.unread.len() > 0 || len < reader.capacity {
        if taken.result is Ok {
            assert(taken.data + taken.reader.unread =~= filled.unread);
        }
    } else {
        assert(taken.data + taken.reader.unread =~= taken.data);
    }
}

/// As [`law_read_step`], for buffers of the lengths `lens`, which are `len` together: a request
/// past the buffer is for each of them.
pub proof fn law_read_vectored_step(reader: Reader, lens: Seq<nat>, len: nat)
    ensures
        reader.unread.len() > 0 || len < reader.capacity ==> reader.read_vectored(lens, len)
            == reader.read(len),
        reader.unread.len() == 0 && len >= reader.capacity ==> {
            let taken = reader.read_vectored(lens, len);
            let asked = reader.input.asked.push(ReadAsk::ReadVectored(lens));
            &&& taken.reader == Reader { input: Input { asked, ..reader.input }, ..reader }
            &&& taken.data == reader.read(len).data
            &&& taken.result == reader.read(len).result
        },
{
}

/// Reading a number of bytes reads, and goes on with what is still wanted. The end of the input
/// before that is an error, an interrupted request is repeated, and any other error is returned.
pub proof fn law_read_exact_step(reader: Reader, len: nat)
    ensures
        ({
            let taken = reader.read_exact(len);
            let part = reader.read(len);
            if len == 0 {
                &&& taken.reader == reader
                &&& taken.data.len() == 0
                &&& taken.result == Ok::<nat, Error>(0)
            } else {
                match part.result {
                    Ok(count) => if count == 0 {
                        &&& taken.reader == part.reader
                        &&& taken.data.len() == 0
                        &&& taken.result == Err::<nat, Error>(Error::Fault(Fault::FillBuffer))
                    } else {
                        let rest = part.reader.read_exact((len - count) as nat);
                        &&& taken.reader == rest.reader
                        &&& taken.data == part.data + rest.data
                        &&& match rest.result {
                            Ok(more) => taken.result == Ok::<nat, Error>(count + more),
                            Err(error) => taken.result == Err::<nat, Error>(error),
                        }
                    },
                    Err(Error::Os(4)) => taken == part.reader.read_exact(len),
                    Err(Error::Simple(ErrorKind::Interrupted)) => taken
                        == part.reader.read_exact(len),
                    Err(error) => {
                        &&& taken.reader == part.reader
                        &&& taken.data.len() == 0
                        &&& taken.result == Err::<nat, Error>(error)
                    },
                }
            }
        }),
{
    law_read_step(reader, len);
}

/// Reading to the end hands out what is buffered and then what the host still gives, and leaves
/// nothing. That the stream is not open is no error.
pub proof fn law_read_to_end_step(reader: Reader)
    ensures
        ({
            let taken = reader.read_to_end();
            let rest = reader.input.read_to_end();
            let had = reader.unread.len();
            &&& taken.data == reader.unread + rest.data
            &&& taken.reader.input == rest.input
            &&& taken.reader.capacity == reader.capacity
            &&& taken.reader.unread.len() == 0
            &&& taken.result == match rest.result {
                Ok(count) => Ok::<nat, Error>(had + count),
                Err(Error::Os(9)) => Ok(had),
                Err(error) => Err(error),
            }
        }),
{
}

/// Reading up to a byte hands out the buffer up to and with the first such byte, which is all that
/// is taken. Without that byte, all of the buffer is handed out and reading goes on, until the
/// input has ended. An interrupted request is repeated, and any other error is returned.
pub proof fn law_read_until_step(reader: Reader, byte: u8)
    ensures
        ({
            let taken = reader.read_until(byte);
            let (filled, result) = reader.fill();
            let unread = filled.unread;
            match result {
                Ok(_) => {
                    &&& unread.len() == 0 ==> {
                        &&& taken.reader == filled
                        &&& taken.data.len() == 0
                        &&& taken.result == Ok::<nat, Error>(0)
                    }
                    &&& forall|at: int|
                        0 <= at < unread.len() && #[trigger] unread[at] == byte && !unread.take(
                            at,
                        ).contains(byte) ==> {
                            &&& taken.data == unread.take(at + 1)
                            &&& taken.reader == Reader { unread: unread.skip(at + 1), ..filled }
                            &&& taken.result == Ok::<nat, Error>((at + 1) as nat)
                        }
                    &&& unread.len() > 0 && !unread.contains(byte) ==> {
                        let rest = Reader { unread: Seq::empty(), ..filled }.read_until(byte);
                        &&& taken.reader == rest.reader
                        &&& taken.data == unread + rest.data
                        &&& match rest.result {
                            Ok(more) => taken.result == Ok::<nat, Error>(unread.len() + more),
                            Err(error) => taken.result == Err::<nat, Error>(error),
                        }
                    }
                },
                Err(Error::Os(4)) => taken == filled.read_until(byte),
                Err(Error::Simple(ErrorKind::Interrupted)) => taken == filled.read_until(byte),
                Err(error) => {
                    &&& taken.reader == filled
                    &&& taken.data.len() == 0
                    &&& taken.result == Err::<nat, Error>(error)
                },
            }
        }),
{
    let (filled, result) = reader.fill();
    let unread = filled.unread;
    lemma_through_first(unread, byte);
    assert forall|at: int|
        0 <= at < unread.len() && #[trigger] unread[at] == byte && !unread.take(at).contains(
            byte,
        ) implies through_first(unread, byte) == Some((at + 1) as nat) by {
        let len = through_first(unread, byte)->0;
        if len - 1 < at {
            assert(unread.take(at)[len - 1] == byte);
        }
    }
    if unread.len() > 0 && !unread.contains(byte) {
        assert(filled.consume(unread.len()).unread =~= Seq::empty());
        assert(through_first(unread, byte) is None);
    }
}

} // verus!
