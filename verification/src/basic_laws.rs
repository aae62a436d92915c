//! Laws of the small things that all operations are stated with: buffers, errors, text, and what
//! printing reports.
use vstd::prelude::*;
use vstd::utf8::{
    decode_utf8_encode_utf8, encode_utf8, encode_utf8_decode_utf8, encode_utf8_valid_utf8,
    valid_utf8,
};

use crate::bytes::{advance, contents, counted, least, lengths, overwrite, slices};
use crate::error::{forgiven, Error, ErrorKind, Fault};
use crate::format::Arguments;
use crate::print::{is_printed, PrintError};
use crate::sink::format_result;
use crate::text::{line_of, text_of, text_result};

verus! {

/// What is read into a buffer stands at its start, byte for byte, and the rest of the buffer is as
/// it was.
pub proof fn law_overwrite(buffer: Seq<u8>, data: Seq<u8>)
    requires
        data.len() <= buffer.len(),
    ensures
        overwrite(buffer, data).len() == buffer.len(),
        overwrite(buffer, data).take(data.len() as int) == data,
        overwrite(buffer, data).skip(data.len() as int) == buffer.skip(data.len() as int),
        forall|i: int|
            0 <= i < buffer.len() ==> #[trigger] overwrite(buffer, data)[i] == if i < data.len() {
                data[i]
            } else {
                buffer[i]
            },
{
    assert(overwrite(buffer, data).take(data.len() as int) =~= data);
    assert(overwrite(buffer, data).skip(data.len() as int) =~= buffer.skip(data.len() as int));
}

/// The smaller of two numbers is one of them, and exceeds neither.
pub proof fn law_least(a: nat, b: nat)
    ensures
        least(a, b) <= a,
        least(a, b) <= b,
        least(a, b) == a || least(a, b) == b,
{
}

/// A count of bytes and an error mean what they say.
pub proof fn law_counted(count: usize, error: Error)
    ensures
        counted(Ok(count)) == Ok::<nat, Error>(count as nat),
        counted(Err(error)) == Err::<nat, Error>(error),
{
}

/// The contents of several vectors are those of each of them.
pub proof fn law_contents(buffers: Seq<Vec<u8>>)
    ensures
        contents(buffers).len() == buffers.len(),
        forall|i: int| 0 <= i < buffers.len() ==> #[trigger] contents(buffers)[i] == buffers[i]@,
{
}

/// The contents of several slices are those of each of them.
pub proof fn law_slices(buffers: Seq<&[u8]>)
    ensures
        slices(buffers).len() == buffers.len(),
        forall|i: int| 0 <= i < buffers.len() ==> #[trigger] slices(buffers)[i] == buffers[i]@,
{
}

/// The lengths of several buffers are those of each of them.
pub proof fn law_lengths(buffers: Seq<Seq<u8>>)
    ensures
        lengths(buffers).len() == buffers.len(),
        forall|i: int| 0 <= i < buffers.len() ==> #[trigger] lengths(buffers)[i]
            == buffers[i].len(),
{
}

/// Taking bytes from the start of several buffers leaves the end of one buffer, which is not
/// empty, and all the buffers after it as they were. What was taken and what is left are all.
pub proof fn law_advance(buffers: Seq<Seq<u8>>, count: nat)
    requires
        count <= buffers.flatten().len(),
    ensures
        ({
            let left = advance(buffers, count);
            let gone = buffers.len() - left.len();
            &&& left.len() <= buffers.len()
            &&& left.flatten() == buffers.flatten().skip(count as int)
            &&& left.len() > 0 ==> {
                &&& 0 < left[0].len() <= buffers[gone].len()
                &&& left[0] == buffers[gone].skip(buffers[gone].len() - left[0].len())
            }
            &&& forall|i: int| 1 <= i < left.len() ==> #[trigger] left[i] == buffers[gone + i]
        }),
    decreases buffers.len(),
{
    if buffers.len() == 0 {
        assert(buffers.flatten().skip(0) =~= buffers.flatten());
    } else if buffers[0].len() <= count {
        let others = buffers.drop_first();
        let rest = (count - buffers[0].len()) as nat;
        law_advance(others, rest);
        assert(buffers.flatten().skip(count as int) =~= others.flatten().skip(rest as int));
    } else {
        let left = advance(buffers, count);
        assert(left.drop_first() =~= buffers.drop_first());
        assert(left.flatten() =~= buffers.flatten().skip(count as int));
    }
}

/// Two errors of the host say that a request was interrupted, one says that the stream is not
/// open, and no error of this library says either.
pub proof fn law_error_classes(error: Error)
    ensures
        error.interrupted() <==> error == Error::Os(4) || error == Error::Simple(
            ErrorKind::Interrupted,
        ),
        error.ebadf() <==> error == Error::Os(9),
{
}

/// That the stream is not open is no failure. Nothing else is forgiven, and no success is changed.
pub proof fn law_forgiven<T>(value: T, instead: T, error: Error)
    ensures
        forgiven(Ok(value), instead) == Ok::<T, Error>(value),
        forgiven(Err(Error::Os(9)), instead) == Ok::<T, Error>(instead),
        error != Error::Os(9) ==> forgiven(Err(error), instead) == Err::<T, Error>(error),
{
}

/// Reading as text fails only where reading bytes failed, with the same error, or the bytes are
/// not UTF-8. Otherwise it reports what reading bytes reports.
pub proof fn law_text_result(data: Seq<u8>, count: nat, error: Error)
    ensures
        valid_utf8(data) ==> text_result(data, Ok(count)) == Ok::<nat, Error>(count),
        !valid_utf8(data) ==> text_result(data, Ok(count)) == Err::<nat, Error>(
            Error::Fault(Fault::InvalidUtf8),
        ),
        text_result(data, Err(error)) == Err::<nat, Error>(error),
{
}

/// Text that was read encodes to the bytes that came, and any text that is sent as UTF-8 is read
/// as that text. Bytes that are not UTF-8 add nothing.
pub proof fn law_text(data: Seq<u8>, text: Seq<char>)
    ensures
        valid_utf8(data) ==> encode_utf8(text_of(data)) == data,
        !valid_utf8(data) ==> text_of(data).len() == 0,
        text_of(encode_utf8(text)) == text,
{
    if valid_utf8(data) {
        decode_utf8_encode_utf8(data);
    }
    encode_utf8_valid_utf8(text);
    encode_utf8_decode_utf8(text);
}

/// A line ends with a newline, or with a carriage return and a newline, and what ends it is taken
/// off, once. Where no newline ends the data, nothing is taken off.
pub proof fn law_line_of(line: Seq<u8>)
    ensures
        line_of(line + seq![13u8, 10u8]) == line,
        line.len() == 0 || line.last() != 13 ==> line_of(line + seq![10u8]) == line,
        line.len() == 0 || line.last() != 10 ==> line_of(line) == line,
{
    assert((line + seq![13u8, 10u8]).drop_last() =~= line + seq![13u8]);
    assert((line + seq![13u8]).drop_last() =~= line);
    assert((line + seq![10u8]).drop_last() =~= line);
}

/// The bytes of formatted output are those of its pieces, in order.
pub proof fn law_formatted(args: Arguments)
    ensures
        args@.failed == args.failed,
        args@.pieces.len() == args.pieces@.len(),
        forall|i: int|
            0 <= i < args.pieces@.len() ==> #[trigger] args@.pieces[i] == encode_utf8(
                args.pieces@[i]@,
            ),
{
}

/// Formatted output succeeds exactly if both writing and formatting did. An error of the stream
/// is returned as it is; a formatting routine that fails by itself has an error of its own.
pub proof fn law_format_result(error: Error, failed: bool)
    ensures
        format_result(Err(error), failed) == Err::<(), Error>(error),
        format_result(Ok(()), false) == Ok::<(), Error>(()),
        format_result(Ok(()), true) == Err::<(), Error>(Error::Fault(Fault::Formatter)),
{
}

/// Printing reports every error that writing returned, with the name of the stream, and claims
/// success exactly where writing succeeded. It has no result exactly where writing has none.
pub proof fn law_printed(
    printed: Option<Result<(), PrintError>>,
    done: Option<Result<(), Error>>,
    label: Seq<char>,
)
    requires
        is_printed(printed, done, label),
    ensures
        match printed {
            None => done is None,
            Some(Ok(_)) => done is Some && done->0 is Ok,
            Some(Err(failed)) => {
                &&& done == Some(Err::<(), Error>(failed.error))
                &&& failed.label@ == label
            },
        },
        done is None ==> printed is None,
        done matches Some(Err(error)) ==> {
            &&& printed matches Some(Err(failed))
            &&& failed.error == error
            &&& failed.label@ == label
        },
{
}

/// Printing succeeds exactly if every piece was written and formatting did not fail.
pub proof fn law_print_succeeds(
    printed: Option<Result<(), PrintError>>,
    result: Result<(), Error>,
    failed: bool,
    label: Seq<char>,
)
    requires
        is_printed(printed, Some(format_result(result, failed)), label),
    ensures
        printed is Some,
        printed->0 is Ok <==> result is Ok && !failed,
        result matches Err(error) ==> {
            &&& printed matches Some(Err(report))
            &&& report.error == error
            &&& report.label@ == label
        },
{
}

} // verus!
