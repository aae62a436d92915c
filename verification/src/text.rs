//! Text out of bytes.
use vstd::prelude::*;
use vstd::string::*;
use vstd::utf8::*;

use crate::bytes::{counted, NEWLINE, RETURN};
use crate::error::{Error, Fault};

verus! {

/// Calls `core::str::from_utf8`, which reads `bytes` as UTF-8.
///
/// Believed of it: it succeeds exactly on valid UTF-8, and the text that it hands back is what
/// the bytes encode.
#[verifier::external_body]
pub(crate) fn from_utf8(bytes: &[u8]) -> (text: Option<&str>)
    ensures
        text is Some <==> valid_utf8(bytes@),
        text matches Some(text) ==> text@ == decode_utf8(bytes@),
{
    core::str::from_utf8(bytes).ok()
}

/// What a reading operation adds to a string, if the bytes that it got are `data`: the text that
/// they encode, or nothing where they are not UTF-8.
pub open spec fn text_of(data: Seq<u8>) -> Seq<char> {
    if valid_utf8(data) {
        decode_utf8(data)
    } else {
        Seq::empty()
    }
}

/// What a reading operation into a string returns, if reading bytes got `data` and returned
/// `result`: bytes that are not UTF-8 turn a success into an error.
pub open spec fn text_result(data: Seq<u8>, result: Result<nat, Error>) -> Result<nat, Error> {
    if result is Ok && !valid_utf8(data) {
        Err(Error::Fault(Fault::InvalidUtf8))
    } else {
        result
    }
}

/// Ends a reading operation into a string: `data` is what was read, and `result` is what reading
/// it returned. The text is added to `buf`, unless `data` is not UTF-8.
pub fn append_to_string(buf: &mut String, data: &[u8], result: Result<usize, Error>) -> (ended:
    Result<usize, Error>)
    ensures
        final(buf)@ == old(buf)@ + text_of(data@),
        counted(ended) == text_result(data@, counted(result)),
{
    match from_utf8(data) {
        Some(text) => {
            buf.append(text);
            result
        },
        None => {
            assert(old(buf)@ + Seq::<char>::empty() =~= old(buf)@);
            match result {
                Ok(_) => Err(Error::Fault(Fault::InvalidUtf8)),
                Err(error) => Err(error),
            }
        },
    }
}

/// A line without what ends it: a newline, or a carriage return and a newline.
pub open spec fn line_of(data: Seq<u8>) -> Seq<u8> {
    if data.len() > 0 && data.last() == NEWLINE {
        let line = data.drop_last();
        if line.len() > 0 && line.last() == RETURN {
            line.drop_last()
        } else {
            line
        }
    } else {
        data
    }
}

/// Text without its last character is text, if that character takes one byte.
pub proof fn lemma_drop_last_valid(data: Seq<u8>)
    requires
        valid_utf8(data),
        data.len() > 0,
        data.last() < 0x80,
    ensures
        valid_utf8(data.drop_last()),
{
    let at = data.len() - 1;
    is_char_boundary_iff_not_is_continuation_byte(data, at);
    valid_utf8_split(data, at);
    assert(data.subrange(0, at) =~= data.drop_last());
}

/// A line of text without what ends it is text.
pub proof fn lemma_line_valid(data: Seq<u8>)
    requires
        valid_utf8(data),
    ensures
        valid_utf8(line_of(data)),
{
    if data.len() > 0 && data.last() == NEWLINE {
        lemma_drop_last_valid(data);
        let line = data.drop_last();
        if line.len() > 0 && line.last() == RETURN {
            lemma_drop_last_valid(line);
        }
    }
}

/// The line that was read, as text without what ends it; there is none where `data` is not
/// UTF-8.
pub fn read_text_line(data: &[u8]) -> (line: Option<String>)
    ensures
        match line {
            Some(line) => valid_utf8(data@) && line@ == decode_utf8(line_of(data@)),
            None => !valid_utf8(data@),
        },
{
    if from_utf8(data).is_none() {
        return None;
    }
    proof {
        lemma_line_valid(data@);
    }
    let mut len: usize = data.len();
    if len > 0 && data[len - 1] == NEWLINE {
        len = len - 1;
        if len > 0 && data[len - 1] == RETURN {
            len = len - 1;
        }
    }
    let part = vstd::slice::slice_subrange(data, 0, len);
    assert(part@ =~= line_of(data@));
    match from_utf8(part) {
        Some(text) => Some(text.to_owned()),
        None => None,
    }
}

} // verus!
