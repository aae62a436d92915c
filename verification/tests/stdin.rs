use stdio::buf_reader::BufReader;
use stdio::error::{Error, ErrorKind, Fault, EBADF, EINTR};
use stdio::raw::StdinRaw;
use stdio::source::{ReadRequest, Source, READ_CHUNK};
use stdio::stdin::{stdin, stdin_locked, Stdin, STDIN_BUF_SIZE};
use stdio::sync::SyncOnceCell;

const ME: u64 = 1;
const OTHER: u64 = 2;

fn reader(capacity: usize, answers: Vec<Result<Vec<u8>, Error>>) -> BufReader {
    let mut source = Source::new();
    for answer in answers {
        source.answer(answer);
    }
    BufReader::with_capacity(capacity, StdinRaw(source))
}

fn data(text: &str) -> Result<Vec<u8>, Error> {
    Ok(text.as_bytes().to_vec())
}

fn ebadf() -> Result<Vec<u8>, Error> {
    Err(Error::Os(EBADF))
}

fn interrupted() -> Result<Vec<u8>, Error> {
    Err(Error::Os(EINTR))
}

fn sizes(reader: &BufReader) -> Vec<usize> {
    let mut sizes = Vec::new();
    for request in &reader.get_ref().0.asked {
        match request {
            ReadRequest::Read(len) => sizes.push(*len),
            ReadRequest::ReadVectored(lens) => sizes.push(lens.iter().sum()),
        }
    }
    sizes
}

fn fresh(answers: Vec<Result<Vec<u8>, Error>>) -> Stdin {
    let mut instance: SyncOnceCell<Stdin> = SyncOnceCell::new();
    let handle = stdin(&mut instance);
    for answer in answers {
        handle.answer(answer);
    }
    handle.clone()
}

#[test]
fn small_reads_come_from_the_buffer() {
    let mut reader = reader(4, vec![data("abcd"), data("ef")]);
    let mut buf = [0u8; 3];
    assert_eq!(reader.read(&mut buf), Ok(3));
    assert_eq!(&buf, b"abc");
    assert_eq!(reader.buffer(), b"d");
    assert_eq!(sizes(&reader), vec![4]);
    assert_eq!(reader.read(&mut buf), Ok(1));
    assert_eq!(&buf, b"dbc");
    assert_eq!(reader.read(&mut buf), Ok(2));
    assert_eq!(&buf, b"efc");
    assert_eq!(sizes(&reader), vec![4, 4]);
}

#[test]
fn large_reads_go_past_the_buffer() {
    let mut reader = reader(4, vec![data("abcdef")]);
    let mut buf = [0u8; 5];
    assert_eq!(reader.read(&mut buf), Ok(5));
    assert_eq!(&buf, b"abcde");
    assert_eq!(reader.buffer(), b"");
    assert_eq!(sizes(&reader), vec![5]);
}

#[test]
fn closed_input_reads_as_empty() {
    let mut buf = [7u8; 2];
    assert_eq!(reader(4, vec![ebadf()]).read(&mut buf), Ok(0));
    assert_eq!(reader(1, vec![ebadf()]).read(&mut buf), Ok(0));
    assert_eq!(buf, [7, 7]);
    assert_eq!(reader(4, vec![ebadf()]).read_vectored(&mut vec![vec![7u8; 2]]), Ok(0));
    assert_eq!(reader(1, vec![ebadf()]).read_vectored(&mut vec![vec![7u8; 2]]), Ok(0));
    assert_eq!(reader(4, vec![]).read_exact(&mut []), Ok(()));
    assert_eq!(reader(4, vec![ebadf()]).read_to_end(&mut Vec::new()), Ok(0));
    assert_eq!(reader(4, vec![ebadf()]).read_line(&mut String::new()), Ok(0));
    assert_eq!(
        reader(4, vec![ebadf()]).read_exact(&mut buf),
        Err(Error::Fault(Fault::FillBuffer))
    );
}

#[test]
fn other_errors_are_returned() {
    let mut buf = [0u8; 2];
    let broken = Error::Os(5);
    assert_eq!(reader(4, vec![Err(broken)]).read(&mut buf), Err(broken));
    assert_eq!(reader(4, vec![interrupted()]).read(&mut buf), Err(Error::Os(EINTR)));
    assert_eq!(reader(4, vec![Err(broken)]).read_to_end(&mut Vec::new()), Err(broken));
    assert_eq!(reader(4, vec![]).read(&mut buf), Err(Error::Unanswered));
}

#[test]
fn vectored_read_fills_each_buffer_in_turn() {
    let mut small = reader(8, vec![data("abcde")]);
    let mut bufs = vec![vec![0u8; 2], vec![], vec![0u8; 4]];
    assert_eq!(small.read_vectored(&mut bufs), Ok(5));
    assert_eq!(bufs, vec![b"ab".to_vec(), vec![], b"cde\0".to_vec()]);
    let mut large = reader(2, vec![data("xyz")]);
    let mut bufs = vec![vec![0u8; 1], vec![0u8; 3]];
    assert_eq!(large.read_vectored(&mut bufs), Ok(3));
    assert_eq!(bufs, vec![b"x".to_vec(), b"yz\0".to_vec()]);
    assert!(matches!(&large.get_ref().0.asked[0], ReadRequest::ReadVectored(lens) if *lens == vec![1, 3]));
    assert!(large.is_read_vectored());
}

#[test]
fn read_exact_goes_on_until_the_buffer_is_full() {
    let mut reader = reader(2, vec![data("ab"), interrupted(), data("c"), data("de")]);
    let mut buf = [0u8; 4];
    assert_eq!(reader.read_exact(&mut buf), Ok(()));
    assert_eq!(&buf, b"abcd");
    assert_eq!(reader.buffer(), b"e");
}

#[test]
fn read_exact_fails_at_the_end_of_the_input() {
    let mut reader = reader(2, vec![data("ab"), data("")]);
    let mut buf = [0u8; 4];
    assert_eq!(reader.read_exact(&mut buf), Err(Error::Fault(Fault::FillBuffer)));
    assert_eq!(&buf, b"ab\0\0");
    assert_eq!(Fault::FillBuffer.kind(), ErrorKind::UnexpectedEof);
    assert_eq!(Fault::FillBuffer.text(), "failed to fill whole buffer");
}

#[test]
fn read_to_end_keeps_what_was_buffered_first() {
    let mut reader = reader(4, vec![data("abcd"), data("ef"), interrupted(), data("g"), data("")]);
    let mut one = [0u8; 1];
    assert_eq!(reader.read(&mut one), Ok(1));
    let mut all = b"+".to_vec();
    assert_eq!(reader.read_to_end(&mut all), Ok(6));
    assert_eq!(all, b"+bcdefg".to_vec());
    assert_eq!(sizes(&reader), vec![4, READ_CHUNK, READ_CHUNK, READ_CHUNK, READ_CHUNK]);
}

#[test]
fn read_to_end_of_a_stream_that_gets_closed_reports_only_the_buffer() {
    let mut reader = reader(2, vec![data("ab"), data("cd"), ebadf()]);
    let mut one = [0u8; 1];
    assert_eq!(reader.read(&mut one), Ok(1));
    let mut all = Vec::new();
    assert_eq!(reader.read_to_end(&mut all), Ok(1));
    assert_eq!(all, b"bcd".to_vec());
}

#[test]
fn read_to_string_wants_text() {
    let mut text = "<".to_string();
    let euro = vec![0xe2, 0x82, 0xac];
    assert_eq!(reader(4, vec![Ok(euro), data("")]).read_to_string(&mut text), Ok(3));
    assert_eq!(text, "<\u{20ac}");
    let cut = vec![b'a', 0xe2, 0x82];
    assert_eq!(
        reader(4, vec![Ok(cut), data("")]).read_to_string(&mut text),
        Err(Error::Fault(Fault::InvalidUtf8))
    );
    assert_eq!(text, "<\u{20ac}");
    assert_eq!(Fault::InvalidUtf8.kind(), ErrorKind::InvalidData);
    assert_eq!(Fault::InvalidUtf8.text(), "stream did not contain valid UTF-8");
}

#[test]
fn read_until_stops_after_the_byte() {
    let mut reader = reader(3, vec![data("ab"), interrupted(), data("c;d"), data("")]);
    let mut got = Vec::new();
    assert_eq!(reader.read_until(b';', &mut got), Ok(4));
    assert_eq!(got, b"abc;".to_vec());
    assert_eq!(reader.read_until(b';', &mut got), Ok(1));
    assert_eq!(got, b"abc;d".to_vec());
}

#[test]
fn read_until_keeps_what_came_before_an_error() {
    let mut reader = reader(3, vec![data("ab"), Err(Error::Simple(ErrorKind::WouldBlock))]);
    let mut got = Vec::new();
    assert_eq!(
        reader.read_until(b';', &mut got),
        Err(Error::Simple(ErrorKind::WouldBlock))
    );
    assert_eq!(got, b"ab".to_vec());
}

#[test]
fn fill_and_consume() {
    let mut reader = reader(4, vec![data("abc"), data("")]);
    assert_eq!(reader.fill_buf(), Ok(&b"abc"[..]));
    reader.consume(2);
    assert_eq!(reader.fill_buf(), Ok(&b"c"[..]));
    reader.consume(100);
    assert_eq!(reader.fill_buf(), Ok(&b""[..]));
    assert_eq!(sizes(&reader), vec![4, 4]);
}

#[test]
fn every_byte_is_handed_out_once_and_in_order() {
    let text = "one\ntwo three\nfour";
    let mut reader = reader(5, vec![data("one\nt"), data("wo th"), data("ree\nf"), data("our"), data("")]);
    let mut out = Vec::new();
    let mut two = [0u8; 2];
    reader.read_exact(&mut two).unwrap();
    out.extend_from_slice(&two);
    reader.read_until(b'\n', &mut out).unwrap();
    let mut line = String::new();
    reader.read_line(&mut line).unwrap();
    out.extend_from_slice(line.as_bytes());
    reader.read_to_end(&mut out).unwrap();
    assert_eq!(out, text.as_bytes().to_vec());
}

#[test]
fn handles_share_one_buffer() {
    let mut instance: SyncOnceCell<Stdin> = SyncOnceCell::new();
    stdin(&mut instance).answer(data("first\nsecond\n"));
    let mut line = String::new();
    assert_eq!(stdin(&mut instance).read_line(ME, &mut line), Some(Ok(6)));
    assert_eq!(stdin(&mut instance).read_line(OTHER, &mut line), Some(Ok(7)));
    assert_eq!(line, "first\nsecond\n");
}

#[test]
fn standard_input_asks_for_a_buffer_full() {
    let mut handle = fresh(vec![]);
    let mut one = [0u8; 1];
    assert_eq!(handle.read(ME, &mut one), Some(Err(Error::Unanswered)));
    assert!(matches!(handle.pending(), Some(ReadRequest::Read(len)) if *len == STDIN_BUF_SIZE));
    assert_eq!(STDIN_BUF_SIZE, 8192);
}

#[test]
fn a_lock_keeps_others_out_and_its_own_thread_too() {
    let mut instance: SyncOnceCell<Stdin> = SyncOnceCell::new();
    let lock = stdin_locked(&mut instance, ME).unwrap();
    let handle = stdin(&mut instance);
    handle.answer(data("x"));
    let mut one = [0u8; 1];
    assert_eq!(handle.read(OTHER, &mut one), None);
    assert_eq!(handle.read(ME, &mut one), None);
    assert_eq!(handle.is_read_vectored(ME), None);
    assert_eq!(handle.read_vectored(ME, &mut vec![vec![0]]), None);
    assert_eq!(handle.read_to_end(OTHER, &mut Vec::new()), None);
    assert_eq!(handle.read_to_string(OTHER, &mut String::new()), None);
    assert_eq!(handle.read_exact(OTHER, &mut one), None);
    assert_eq!(handle.read_line(OTHER, &mut String::new()), None);
    assert!(handle.lock(ME).is_none());
    assert!(handle.lines(OTHER).is_none());
    assert_eq!(lock.read(handle, &mut one), Ok(1));
    assert_eq!(&one, b"x");
    lock.unlock(handle, false);
    assert!(handle.lock(OTHER).is_some());
    assert!(stdin_locked(&mut instance, ME).is_none());
}

#[test]
fn a_panic_under_the_lock_does_not_spoil_the_stream() {
    let mut handle = fresh(vec![data("ab")]);
    let lock = handle.lock(ME).unwrap();
    lock.unlock(&mut handle, true);
    let mut two = [0u8; 2];
    assert_eq!(handle.read_exact(OTHER, &mut two), Some(Ok(())));
    assert_eq!(&two, b"ab");
    let again = handle.into_locked(ME).unwrap();
    again.unlock(&mut handle, false);
}

#[test]
fn the_lock_reads_in_all_ways() {
    let mut handle = fresh(vec![data("a;bc\nde"), data("f"), data("")]);
    let lock = handle.lock(ME).unwrap();
    assert!(lock.is_read_vectored(&handle));
    let mut got = Vec::new();
    assert_eq!(lock.read_until(&mut handle, b';', &mut got), Ok(2));
    assert_eq!(lock.fill_buf(&mut handle), Ok(&b"bc\nde"[..]));
    lock.consume(&mut handle, 1);
    let mut line = String::new();
    assert_eq!(lock.read_line(&mut handle, &mut line), Ok(2));
    assert_eq!(line, "c\n");
    let mut bufs = vec![vec![0u8; 1]];
    assert_eq!(lock.read_vectored(&mut handle, &mut bufs), Ok(1));
    assert_eq!(bufs, vec![b"d".to_vec()]);
    let mut one = [0u8; 1];
    assert_eq!(lock.read_exact(&mut handle, &mut one), Ok(()));
    assert_eq!(lock.as_mut_buf(&mut handle).buffer(), b"");
    let mut rest = String::new();
    assert_eq!(lock.read_to_string(&mut handle, &mut rest), Ok(1));
    assert_eq!(rest, "f");
    assert_eq!(lock.read_to_end(&mut handle, &mut got), Err(Error::Unanswered));
    assert_eq!(lock.fmt(), "StdinLock { .. }");
    assert_eq!(handle.fmt(), "Stdin { .. }");
}

#[test]
fn lines_come_without_what_ends_them() {
    let mut handle = fresh(vec![data("one\ntwo\r\n\nthr\ree"), data(""), data("")]);
    let lines = handle.lines(ME).unwrap();
    assert_eq!(lines.next(&mut handle), Some(Ok("one".to_string())));
    assert_eq!(lines.next(&mut handle), Some(Ok("two".to_string())));
    assert_eq!(lines.next(&mut handle), Some(Ok("".to_string())));
    assert_eq!(lines.next(&mut handle), Some(Ok("thr\ree".to_string())));
    assert_eq!(lines.next(&mut handle), None);
    let lock = lines.into_lock();
    lock.unlock(&mut handle, false);
}

#[test]
fn a_line_that_is_not_text_is_skipped_with_an_error() {
    let mut handle = fresh(vec![Ok(b"\xff\nok\n".to_vec()), Err(Error::Os(5))]);
    let lines = handle.lines(ME).unwrap();
    assert_eq!(lines.next(&mut handle), Some(Err(Error::Fault(Fault::InvalidUtf8))));
    assert_eq!(lines.next(&mut handle), Some(Ok("ok".to_string())));
    assert_eq!(lines.next(&mut handle), Some(Err(Error::Os(5))));
}

#[test]
fn a_carriage_return_alone_does_not_end_a_line() {
    let mut handle = fresh(vec![data("a\r"), data(""), data("")]);
    let lines = handle.lines(ME).unwrap();
    assert_eq!(lines.next(&mut handle), Some(Ok("a\r".to_string())));
    assert_eq!(lines.next(&mut handle), None);
}

#[test]
fn a_read_that_ran_out_of_answers_is_repeated() {
    let before = fresh(vec![data("ab")]);
    let mut handle = before.clone();
    let mut line = String::new();
    assert_eq!(handle.read_line(ME, &mut line), Some(Err(Error::Unanswered)));
    assert!(matches!(handle.pending(), Some(ReadRequest::Read(8192))));
    let mut handle = before;
    assert!(handle.pending().is_none());
    handle.answer(data("c\nd"));
    let mut line = String::new();
    assert_eq!(handle.read_line(ME, &mut line), Some(Ok(4)));
    assert_eq!(line, "abc\n");
    assert!(handle.pending().is_none());
    handle.settle();
    let mut rest = [0u8; 1];
    assert_eq!(handle.read(ME, &mut rest), Some(Ok(1)));
    assert_eq!(&rest, b"d");
}

#[test]
fn text_that_was_read_encodes_to_the_bytes_that_came() {
    let bytes = "h\u{e9}llo \u{1f600}\nrest".as_bytes().to_vec();
    let mut reader = reader(64, vec![Ok(bytes.clone()), data("")]);
    let mut text = String::new();
    assert_eq!(reader.read_line(&mut text), Ok(12));
    assert_eq!(reader.read_to_string(&mut text), Ok(4));
    assert_eq!(text.into_bytes(), bytes);
}

#[test]
fn read_exact_fails_with_the_last_answer_and_an_empty_buffer() {
    let mut reader = reader(2, vec![data("ab"), interrupted(), Err(Error::Os(5)), data("c")]);
    let mut buf = [0u8; 3];
    assert_eq!(reader.read_exact(&mut buf), Err(Error::Os(5)));
    assert_eq!(&buf, b"ab\0");
    assert_eq!(reader.buffer(), b"");
    assert_eq!(reader.get_ref().0.asked.len(), 3);
}
