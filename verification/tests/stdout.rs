use stdio::error::{Error, ErrorKind, Fault, EBADF, EINTR};
use stdio::format::Arguments;
use stdio::line_writer::{LineWriter, LINE_BUFFER};
use stdio::raw::stdout_raw;
use stdio::sink::{Sink, WriteRequest};
use stdio::stdout::{cleanup, stdout, stdout_locked, Stdout};
use stdio::sync::SyncOnceCell;

const ME: u64 = 1;
const OTHER: u64 = 2;

fn writer(capacity: usize, answers: Vec<Result<usize, Error>>) -> LineWriter {
    let mut raw = stdout_raw();
    for answer in answers {
        raw.0.answer(answer);
    }
    LineWriter::with_capacity(capacity, raw)
}

fn show(request: &WriteRequest) -> String {
    match request {
        WriteRequest::Write(data) => String::from_utf8(data.clone()).unwrap(),
        WriteRequest::WriteVectored(bufs) => {
            let mut text = String::new();
            for buf in bufs {
                text.push('[');
                text.push_str(&String::from_utf8(buf.clone()).unwrap());
                text.push(']');
            }
            text
        }
        WriteRequest::Flush => "flush".to_string(),
    }
}

fn asked(sink: &Sink) -> Vec<String> {
    sink.asked.iter().map(show).collect()
}

fn sent(writer: &LineWriter) -> Vec<String> {
    asked(&writer.get_ref().0)
}

/// A host that takes at most `limit` bytes at a time.
struct Host {
    limit: usize,
    taken: Vec<u8>,
    flushes: usize,
}

impl Host {
    fn new(limit: usize) -> Host {
        Host { limit, taken: Vec::new(), flushes: 0 }
    }

    fn perform(&mut self, request: &WriteRequest) -> Result<usize, Error> {
        let data = match request {
            WriteRequest::Write(data) => data.clone(),
            WriteRequest::WriteVectored(bufs) => bufs.concat(),
            WriteRequest::Flush => {
                self.flushes += 1;
                return Ok(0);
            }
        };
        let count = data.len().min(self.limit);
        self.taken.extend_from_slice(&data[..count]);
        Ok(count)
    }
}

/// Repeats an operation from the state in which it began until the host has answered all that it
/// asks.
fn drive<T>(stream: &mut Stdout, host: &mut Host, op: impl Fn(&mut Stdout) -> T) -> T {
    loop {
        let before = stream.clone();
        let result = op(stream);
        match stream.pending() {
            None => {
                stream.settle();
                return result;
            }
            Some(request) => {
                let answer = host.perform(request);
                *stream = before;
                stream.answer(answer);
            }
        }
    }
}

fn fresh() -> Stdout {
    let mut instance: SyncOnceCell<Stdout> = SyncOnceCell::new();
    stdout(&mut instance).clone()
}

#[test]
fn the_start_of_a_line_waits() {
    let mut writer = writer(8, vec![]);
    assert_eq!(writer.write(b"abc"), Ok(3));
    assert_eq!(writer.write(b"de"), Ok(2));
    assert_eq!(sent(&writer), Vec::<String>::new());
}

#[test]
fn whole_lines_are_passed_on() {
    let mut writer = writer(8, vec![Ok(3), Ok(2)]);
    assert_eq!(writer.write(b"abc"), Ok(3));
    assert_eq!(writer.write(b"d\ne"), Ok(3));
    assert_eq!(sent(&writer), vec!["abc", "d\n"]);
    assert_eq!(writer.into_raw().0.asked.len(), 3);
}

#[test]
fn a_short_write_of_lines_buffers_the_lines_that_are_left() {
    let mut writer = writer(8, vec![Ok(1), Ok(3)]);
    assert_eq!(writer.write(b"a\nb\ncd"), Ok(4));
    assert_eq!(sent(&writer), vec!["a\nb\n"]);
    assert_eq!(writer.write(b"x"), Ok(1));
    assert_eq!(sent(&writer), vec!["a\nb\n", "\nb\n"]);
}

#[test]
fn a_short_write_of_lines_buffers_as_many_lines_as_fit() {
    let mut writer = writer(4, vec![Ok(1), Ok(4)]);
    assert_eq!(writer.write(b"ab\nc\ndddd\n"), Ok(5));
    assert_eq!(writer.flush_buf(), Ok(()));
    assert_eq!(sent(&writer), vec!["ab\nc\ndddd\n", "b\nc\n"]);
}

#[test]
fn a_short_write_of_one_long_line_buffers_what_fits_of_it() {
    let mut writer = writer(3, vec![Ok(1), Ok(3)]);
    assert_eq!(writer.write(b"abcdefgh\n"), Ok(4));
    assert_eq!(writer.flush_buf(), Ok(()));
    assert_eq!(sent(&writer), vec!["abcdefgh\n", "bcd"]);
}

#[test]
fn a_full_buffer_is_passed_on_first() {
    let mut writer = writer(4, vec![Ok(3), Ok(5)]);
    assert_eq!(writer.write(b"abc"), Ok(3));
    assert_eq!(writer.write(b"de"), Ok(2));
    assert_eq!(sent(&writer), vec!["abc"]);
    assert_eq!(writer.write_all(b"fg"), Ok(()));
    assert_eq!(sent(&writer), vec!["abc"]);
}

#[test]
fn what_is_larger_than_the_buffer_goes_past_it() {
    let mut writer = writer(4, vec![Ok(2), Ok(2), Ok(4)]);
    assert_eq!(writer.write(b"abcd"), Ok(2));
    assert_eq!(writer.write_all(b"ghijkl"), Ok(()));
    assert_eq!(sent(&writer), vec!["abcd", "ghijkl", "ijkl"]);
}

#[test]
fn a_host_that_takes_nothing_is_an_error() {
    let mut writer = writer(8, vec![Ok(0), Ok(0)]);
    assert_eq!(writer.write(b"a\n"), Ok(0));
    assert_eq!(writer.write_all(b"b"), Ok(()));
    assert_eq!(writer.flush(), Err(Error::Fault(Fault::WriteBuffered)));
    assert_eq!(Fault::WriteBuffered.kind(), ErrorKind::WriteZero);
    assert_eq!(Fault::WriteBuffered.text(), "failed to write the buffered data");
}

#[test]
fn a_host_that_takes_nothing_of_a_line_is_an_error() {
    let mut writer = writer(8, vec![Ok(2), Ok(0)]);
    assert_eq!(writer.write_all(b"abc\n"), Err(Error::Fault(Fault::WriteBuffer)));
    assert_eq!(sent(&writer), vec!["abc\n", "c\n"]);
}

#[test]
fn what_the_host_does_not_take_stays_buffered() {
    let mut writer = writer(8, vec![Ok(2), Err(Error::Os(5)), Ok(3)]);
    assert_eq!(writer.write(b"abcde"), Ok(5));
    assert_eq!(writer.flush_buf(), Err(Error::Os(5)));
    assert_eq!(writer.flush_buf(), Ok(()));
    assert_eq!(sent(&writer), vec!["abcde", "cde", "cde"]);
}

#[test]
fn interrupted_requests_are_repeated() {
    let mut writer = writer(8, vec![Err(Error::Os(EINTR)), Ok(2), Err(Error::Os(EINTR)), Ok(2)]);
    assert_eq!(writer.write_all(b"ab"), Ok(()));
    assert_eq!(writer.write_all(b"c\n"), Ok(()));
    assert_eq!(sent(&writer), vec!["abc\n", "abc\n", "c\n", "c\n"]);
}

#[test]
fn an_interrupted_write_of_lines_is_returned() {
    let mut writer = writer(8, vec![Err(Error::Os(EINTR))]);
    assert_eq!(writer.write(b"c\n"), Err(Error::Os(EINTR)));
}

#[test]
fn closed_output_goes_unnoticed() {
    let closed = Err(Error::Os(EBADF));
    let mut writer = writer(4, vec![closed; 8]);
    assert_eq!(writer.write(b"ab"), Ok(2));
    assert_eq!(writer.write(b"c\nd"), Ok(3));
    assert_eq!(writer.write_all(b"efghijkl\n"), Ok(()));
    assert_eq!(writer.flush(), Ok(()));
    let bufs: [&[u8]; 2] = [b"x\n", b"y"];
    assert_eq!(writer.write_vectored(&bufs), Ok(3));
    assert_eq!(sent(&writer), vec!["ab", "c\n", "d", "efghijkl\n", "flush", "[x\n]"]);
}

#[test]
fn flush_passes_on_and_flushes() {
    let mut writer = writer(8, vec![Ok(3), Ok(0), Err(Error::Os(5))]);
    assert_eq!(writer.write(b"abc"), Ok(3));
    assert_eq!(writer.flush(), Ok(()));
    assert_eq!(sent(&writer), vec!["abc", "flush"]);
    assert_eq!(writer.flush(), Err(Error::Os(5)));
}

#[test]
fn vectored_lines_are_passed_on_at_one_request() {
    let mut writer = writer(8, vec![Ok(1), Ok(4)]);
    assert_eq!(writer.write(b"-"), Ok(1));
    let bufs: [&[u8]; 3] = [b"ab", b"c\n", b"de"];
    assert_eq!(writer.write_vectored(&bufs), Ok(6));
    assert_eq!(sent(&writer), vec!["-", "[ab][c\n]"]);
    assert!(writer.is_write_vectored());
}

#[test]
fn a_short_vectored_write_buffers_nothing() {
    let mut writer = writer(8, vec![Ok(3)]);
    let bufs: [&[u8]; 3] = [b"ab", b"c\n", b"de"];
    assert_eq!(writer.write_vectored(&bufs), Ok(3));
    assert_eq!(writer.flush_buf(), Ok(()));
    assert_eq!(sent(&writer), vec!["[ab][c\n]"]);
}

#[test]
fn vectored_data_without_lines_is_buffered() {
    let mut writer = writer(8, vec![Ok(5)]);
    let bufs: [&[u8]; 2] = [b"ab", b"cde"];
    assert_eq!(writer.write_vectored(&bufs), Ok(5));
    assert_eq!(writer.flush_buf(), Ok(()));
    assert_eq!(sent(&writer), vec!["abcde"]);
}

#[test]
fn all_vectored_data_is_written() {
    let mut writer = writer(2, vec![Ok(1), Err(Error::Os(EINTR)), Ok(2), Ok(2), Ok(3)]);
    let bufs: [&[u8]; 4] = [b"", b"ab\n", b"c", b"defg"];
    assert_eq!(writer.write_all_vectored(&bufs), Ok(()));
    assert_eq!(sent(&writer), vec!["[ab\n]", "[b\n]", "[b\n]", "cd", "[efg]"]);
}

#[test]
fn a_host_that_takes_one_buffer_at_a_time_gets_the_first_that_is_filled() {
    let mut raw = stdout_raw();
    raw.0.vectored = false;
    raw.0.answer(Ok(3));
    let mut writer = LineWriter::with_capacity(8, raw);
    let bufs: [&[u8]; 3] = [b"", b"ab\n", b"c"];
    assert_eq!(writer.write_vectored(&bufs), Ok(3));
    assert_eq!(sent(&writer), vec!["ab\n"]);
    assert!(!writer.is_write_vectored());
    let empty: [&[u8]; 1] = [b""];
    assert_eq!(writer.write_vectored(&empty), Ok(0));
}

#[test]
fn formatted_output_is_buffered_by_lines() {
    let mut writer = writer(16, vec![Ok(4)]);
    let args = Arguments { pieces: vec!["ab".to_string(), "c\n".to_string(), "d".to_string()], failed: false };
    assert_eq!(writer.write_fmt(&args), Ok(()));
    assert_eq!(sent(&writer), vec!["abc\n"]);
    let broken = Arguments { pieces: vec!["e".to_string()], failed: true };
    assert_eq!(writer.write_fmt(&broken), Err(Error::Fault(Fault::Formatter)));
}

#[test]
fn all_bytes_arrive_once_and_in_order() {
    for limit in 1..6 {
        let mut stream = fresh();
        let mut host = Host::new(limit);
        let text = b"first line\nsecond\n\nthe last one";
        for part in text.chunks(7) {
            assert_eq!(drive(&mut stream, &mut host, |s| s.write_all(ME, part)), Some(Ok(())));
        }
        assert_eq!(host.taken, b"first line\nsecond\n\n".to_vec());
        assert_eq!(drive(&mut stream, &mut host, |s| s.flush(ME)), Some(Ok(())));
        assert_eq!(host.taken, text.to_vec());
        assert_eq!(host.flushes, 1);
    }
}

#[test]
fn vectored_bytes_arrive_once_and_in_order() {
    for limit in 1..6 {
        let mut stream = fresh();
        let mut host = Host::new(limit);
        let bufs: [&[u8]; 5] = [b"", b"one ", b"two\nthree\n", b"", b"four"];
        assert_eq!(drive(&mut stream, &mut host, |s| s.write_all_vectored(ME, &bufs)), Some(Ok(())));
        assert_eq!(host.taken, b"one two\nthree\n".to_vec());
        let args = Arguments { pieces: vec![" five".to_string(), "\n".to_string()], failed: false };
        assert_eq!(drive(&mut stream, &mut host, |s| s.write_fmt(ME, &args)), Some(Ok(())));
        assert_eq!(host.taken, b"one two\nthree\nfour five\n".to_vec());
    }
}

#[test]
fn the_buffer_of_standard_output_holds_a_kilobyte() {
    assert_eq!(LINE_BUFFER, 1024);
    let mut stream = fresh();
    assert_eq!(stream.write(ME, &[b'x'; 1023]), Some(Ok(1023)));
    assert!(stream.pending().is_none());
    assert_eq!(stream.write(ME, b"yz"), Some(Err(Error::Unanswered)));
    assert!(matches!(stream.pending(), Some(WriteRequest::Write(data)) if data.len() == 1023));
}

#[test]
fn output_handles_share_one_buffer() {
    let mut instance: SyncOnceCell<Stdout> = SyncOnceCell::new();
    stdout(&mut instance).answer(Ok(2));
    stdout(&mut instance).answer(Ok(1));
    assert_eq!(stdout(&mut instance).write(ME, b"ab"), Some(Ok(2)));
    assert_eq!(stdout(&mut instance).write(OTHER, b"\n"), Some(Ok(1)));
    assert!(stdout(&mut instance).pending().is_none());
}

#[test]
fn the_output_lock_may_be_taken_again() {
    let mut instance: SyncOnceCell<Stdout> = SyncOnceCell::new();
    let first = stdout_locked(&mut instance, ME).unwrap();
    let stream = stdout(&mut instance);
    let second = stream.lock(ME).unwrap();
    assert!(stream.lock(OTHER).is_none());
    assert_eq!(stream.write(OTHER, b"x"), None);
    assert_eq!(stream.write_vectored(OTHER, &[b"x"]), None);
    assert_eq!(stream.flush(OTHER), None);
    assert_eq!(stream.write_all(OTHER, b"x"), None);
    assert_eq!(stream.write_all_vectored(OTHER, &[b"x"]), None);
    assert_eq!(stream.is_write_vectored(OTHER), None);
    assert_eq!(stream.is_write_vectored(ME), Some(true));
    assert_eq!(stream.write(ME, b"x"), Some(Ok(1)));
    second.unlock(stream);
    assert!(stream.into_locked(OTHER).is_none());
    assert_eq!(first.write_all(stream, b"y"), Ok(()));
    first.unlock(stream);
    let third = stream.into_locked(OTHER).unwrap();
    assert!(stream.is_countable(OTHER));
    third.unlock(stream);
    assert!(stdout_locked(&mut instance, ME).is_some());
    assert!(stdout_locked(&mut instance, OTHER).is_none());
}

#[test]
fn the_output_lock_writes_in_all_ways() {
    let mut stream = fresh();
    for answer in [Ok(5), Ok(0)] {
        stream.answer(answer);
    }
    let lock = stream.lock(ME).unwrap();
    assert!(lock.is_write_vectored(&stream));
    assert_eq!(lock.write(&mut stream, b"a"), Ok(1));
    let bufs: [&[u8]; 1] = [b"b"];
    assert_eq!(lock.write_vectored(&mut stream, &bufs), Ok(1));
    assert_eq!(lock.write_all_vectored(&mut stream, &bufs), Ok(()));
    let args = Arguments { pieces: vec!["c".to_string()], failed: false };
    assert_eq!(lock.write_fmt(&mut stream, &args), Ok(()));
    assert_eq!(lock.write_all(&mut stream, b"\n"), Ok(()));
    assert_eq!(lock.flush(&mut stream), Ok(()));
    assert!(stream.pending().is_none());
    assert_eq!(lock.fmt(), "StdoutLock { .. }");
    assert_eq!(stream.fmt(), "Stdout { .. }");
}

#[test]
fn cleanup_passes_on_the_buffer_and_stops_buffering() {
    let mut instance: SyncOnceCell<Stdout> = SyncOnceCell::new();
    let stream = stdout(&mut instance);
    assert_eq!(stream.write(ME, b"abc"), Some(Ok(3)));
    stream.answer(Ok(3));
    stream.answer(Ok(1));
    stream.answer(Ok(2));
    cleanup(&mut instance, ME);
    assert_eq!(stdout(&mut instance).write_all(ME, b"d"), Some(Ok(())));
    assert_eq!(stdout(&mut instance).write(ME, b"efg"), Some(Ok(2)));
    assert_eq!(stdout(&mut instance).write(ME, b"g"), Some(Err(Error::Unanswered)));
    assert_eq!(stdout(&mut instance).pending().map(show), Some("g".to_string()));
}

#[test]
fn cleanup_twice_is_the_same_as_once() {
    let mut instance: SyncOnceCell<Stdout> = SyncOnceCell::new();
    let stream = stdout(&mut instance);
    stream.answer(Ok(3));
    assert_eq!(stream.write(ME, b"abc"), Some(Ok(3)));
    cleanup(&mut instance, ME);
    cleanup(&mut instance, ME);
    assert!(stdout(&mut instance).pending().is_none());
}

#[test]
fn cleanup_leaves_a_stream_alone_that_another_thread_holds() {
    let mut instance: SyncOnceCell<Stdout> = SyncOnceCell::new();
    let lock = stdout_locked(&mut instance, OTHER).unwrap();
    assert_eq!(lock.write(stdout(&mut instance), b"abc"), Ok(3));
    cleanup(&mut instance, ME);
    assert!(stdout(&mut instance).pending().is_none());
    assert_eq!(lock.write(stdout(&mut instance), b"d"), Ok(1));
    assert!(stdout(&mut instance).pending().is_none());
}

#[test]
fn cleanup_makes_no_stream() {
    let mut instance: SyncOnceCell<Stdout> = SyncOnceCell::new();
    cleanup(&mut instance, ME);
    assert!(instance.get_mut().is_none());
}

#[test]
fn an_operation_with_all_its_answers_does_not_see_more_of_them() {
    let mut few = writer(8, vec![Ok(1), Ok(1)]);
    let mut many = writer(8, vec![Ok(1), Ok(1), Ok(7), Err(Error::Os(5))]);
    assert_eq!(few.write_all(b"a\nb"), Ok(()));
    assert_eq!(many.write_all(b"a\nb"), Ok(()));
    assert_eq!(sent(&few), sent(&many));
    assert_eq!(sent(&few), vec!["a\n", "\n"]);
}

#[test]
fn a_repeated_operation_makes_the_same_requests() {
    let mut few = writer(8, vec![Ok(1)]);
    let mut many = writer(8, vec![Ok(1), Ok(1), Ok(2)]);
    assert_eq!(few.write_all(b"abcd\n"), Err(Error::Unanswered));
    assert_eq!(sent(&few), vec!["abcd\n", "bcd\n"]);
    assert_eq!(many.write_all(b"abcd\n"), Err(Error::Unanswered));
    assert_eq!(sent(&many)[..2], sent(&few)[..]);
}

#[test]
fn formatted_lines_do_not_wait() {
    let mut writer = writer(16, vec![Ok(1), Ok(3), Ok(2)]);
    assert_eq!(writer.write(b"a\nb\n"), Ok(4));
    assert_eq!(sent(&writer), vec!["a\nb\n"]);
    let args = Arguments {
        pieces: vec!["c".to_string(), "\n".to_string(), "d".to_string()],
        failed: false,
    };
    assert_eq!(writer.write_fmt(&args), Ok(()));
    assert_eq!(sent(&writer), vec!["a\nb\n", "\nb\n", "c\n"]);
}

#[test]
fn formatted_output_in_parts_is_the_same_as_at_once() {
    let parts = |texts: &[&str]| Arguments {
        pieces: texts.iter().map(|text| text.to_string()).collect(),
        failed: false,
    };
    let answers = vec![Ok(3), Ok(1), Ok(2)];
    let mut once = writer(4, answers.clone());
    let mut twice = writer(4, answers);
    assert_eq!(once.write_fmt(&parts(&["ab", "c\n", "d", "\n"])), Ok(()));
    assert_eq!(twice.write_fmt(&parts(&["ab", "c\n"])), Ok(()));
    assert_eq!(twice.write_fmt(&parts(&["d", "\n"])), Ok(()));
    assert_eq!(sent(&once), sent(&twice));
    assert_eq!(sent(&once), vec!["abc\n", "\n", "d\n"]);
}

#[test]
fn a_failed_write_asks_for_nothing_after_the_failure() {
    let mut writer = writer(8, vec![Ok(1), Err(Error::Os(5)), Ok(9)]);
    assert_eq!(writer.write_all(b"ab\ncd"), Err(Error::Os(5)));
    assert_eq!(sent(&writer), vec!["ab\n", "b\n"]);
}
