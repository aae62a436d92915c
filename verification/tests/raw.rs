use stdio::error::{is_ebadf, Error, ErrorKind, Fault, EBADF, EINTR};
use stdio::format::Arguments;
use stdio::raw::{handle_ebadf, stderr_raw, stdin_raw, stdout_raw, StderrRaw, StdinRaw, StdoutRaw};
use stdio::sink::{Sink, WriteRequest};

fn stdout_with(answers: Vec<Result<usize, Error>>) -> StdoutRaw {
    let mut raw = stdout_raw();
    for answer in answers {
        raw.0.answer(answer);
    }
    raw
}

fn stderr_with(answers: Vec<Result<usize, Error>>) -> StderrRaw {
    let mut raw = stderr_raw();
    for answer in answers {
        raw.0.answer(answer);
    }
    raw
}

fn stdin_with(answers: Vec<Result<Vec<u8>, Error>>) -> StdinRaw {
    let mut raw = stdin_raw();
    for answer in answers {
        raw.0.answer(answer);
    }
    raw
}

fn asked(sink: &Sink) -> Vec<String> {
    let mut shown = Vec::new();
    for request in &sink.asked {
        shown.push(match request {
            WriteRequest::Write(data) => format!("write {}", String::from_utf8(data.clone()).unwrap()),
            WriteRequest::WriteVectored(bufs) => {
                let mut text = "writev".to_string();
                for buf in bufs {
                    text.push(' ');
                    text.push_str(&String::from_utf8(buf.clone()).unwrap());
                }
                text
            }
            WriteRequest::Flush => "flush".to_string(),
        });
    }
    shown
}

fn pieces(texts: &[&str], failed: bool) -> Arguments {
    Arguments { pieces: texts.iter().map(|text| text.to_string()).collect(), failed }
}

#[test]
fn ebadf_is_handled_and_nothing_else() {
    assert_eq!(handle_ebadf(Err(Error::Os(EBADF)), 3), Ok(3));
    assert_eq!(handle_ebadf(Ok(1), 3), Ok(1));
    assert_eq!(handle_ebadf(Err::<i32, Error>(Error::Os(5)), 3), Err(Error::Os(5)));
    assert_eq!(
        handle_ebadf(Err::<i32, Error>(Error::Simple(ErrorKind::Other)), 3),
        Err(Error::Simple(ErrorKind::Other))
    );
    assert_eq!(handle_ebadf(Err::<i32, Error>(Error::Unanswered), 3), Err(Error::Unanswered));
    assert!(is_ebadf(&Error::Os(9)));
    assert!(!is_ebadf(&Error::Os(10)));
    assert!(!is_ebadf(&Error::Fault(Fault::Formatter)));
}

#[test]
fn error_numbers() {
    assert_eq!(Error::Os(17).raw_os_error(), Some(17));
    assert_eq!(Error::Simple(ErrorKind::Interrupted).raw_os_error(), None);
    assert!(Error::Os(EINTR).is_interrupted());
    assert!(Error::Simple(ErrorKind::Interrupted).is_interrupted());
    assert!(!Error::Os(EBADF).is_interrupted());
    assert!(!Error::Unanswered.is_interrupted());
}

#[test]
fn raw_input() {
    let mut raw = stdin_with(vec![
        Ok(b"abc".to_vec()),
        Err(Error::Os(EBADF)),
        Ok(b"de".to_vec()),
        Err(Error::Os(EBADF)),
        Ok(b"f".to_vec()),
        Ok(vec![]),
        Ok(b"g".to_vec()),
        Err(Error::Os(EBADF)),
    ]);
    let mut buf = [0u8; 2];
    assert_eq!(raw.read(&mut buf), Ok(2));
    assert_eq!(&buf, b"ab");
    assert_eq!(raw.read(&mut buf), Ok(0));
    let mut bufs = vec![vec![0u8; 1], vec![0u8; 2]];
    assert_eq!(raw.read_vectored(&mut bufs), Ok(2));
    assert_eq!(bufs, vec![b"d".to_vec(), b"e\0".to_vec()]);
    assert_eq!(raw.read_vectored(&mut bufs), Ok(0));
    let mut text = String::new();
    assert_eq!(raw.read_to_string(&mut text), Ok(1));
    assert_eq!(text, "f");
    let mut all = Vec::new();
    assert_eq!(raw.read_to_end(&mut all), Ok(0));
    assert_eq!(all, b"g".to_vec());
    assert!(raw.is_read_vectored());
}

#[test]
fn raw_output_takes_what_the_host_takes() {
    let mut raw = stdout_with(vec![Ok(2), Ok(9), Err(Error::Os(EBADF)), Err(Error::Os(5))]);
    assert_eq!(raw.write(b"abc"), Ok(2));
    assert_eq!(raw.write(b"abc"), Ok(3));
    assert_eq!(raw.write(b"abc"), Ok(3));
    assert_eq!(raw.write(b"abc"), Err(Error::Os(5)));
    assert_eq!(raw.write(b"abc"), Err(Error::Unanswered));
    assert!(raw.is_write_vectored());
}

#[test]
fn raw_vectored_output() {
    let mut raw = stderr_with(vec![Ok(2), Err(Error::Os(EBADF))]);
    let bufs: [&[u8]; 3] = [b"ab", b"", b"cde"];
    assert_eq!(raw.write_vectored(&bufs), Ok(2));
    assert_eq!(raw.write_vectored(&bufs), Ok(5));
    assert_eq!(asked(&raw.0), vec!["writev ab  cde", "writev ab  cde"]);
    assert!(raw.is_write_vectored());
}

#[test]
fn raw_flush() {
    let mut raw = stderr_with(vec![Ok(0), Err(Error::Os(EBADF)), Err(Error::Os(EINTR))]);
    assert_eq!(raw.flush(), Ok(()));
    assert_eq!(raw.flush(), Ok(()));
    assert_eq!(raw.flush(), Err(Error::Os(EINTR)));
    let mut raw = stdout_with(vec![Err(Error::Os(EBADF))]);
    assert_eq!(raw.flush(), Ok(()));
}

#[test]
fn raw_write_all_goes_on_with_the_rest() {
    let mut raw = stdout_with(vec![Ok(1), Err(Error::Os(EINTR)), Ok(2)]);
    assert_eq!(raw.write_all(b"abc"), Ok(()));
    assert_eq!(asked(&raw.0), vec!["write abc", "write bc", "write bc"]);
    let mut raw = stderr_with(vec![Ok(1), Ok(0)]);
    assert_eq!(raw.write_all(b"abc"), Err(Error::Fault(Fault::WriteBuffer)));
    assert_eq!(Fault::WriteBuffer.kind(), ErrorKind::WriteZero);
    assert_eq!(Fault::WriteBuffer.text(), "failed to write whole buffer");
    let mut raw = stderr_with(vec![Ok(1), Err(Error::Os(EBADF))]);
    assert_eq!(raw.write_all(b"abc"), Ok(()));
}

#[test]
fn raw_write_all_vectored_goes_on_with_the_rest() {
    let bufs: [&[u8]; 4] = [b"", b"ab", b"", b"cd"];
    let mut raw = stdout_with(vec![Ok(1), Err(Error::Os(EINTR)), Ok(2), Ok(1)]);
    assert_eq!(raw.write_all_vectored(&bufs), Ok(()));
    assert_eq!(asked(&raw.0), vec!["writev ab  cd", "writev b  cd", "writev b  cd", "writev d"]);
    let mut raw = stderr_with(vec![Ok(0)]);
    assert_eq!(raw.write_all_vectored(&bufs), Err(Error::Fault(Fault::WriteBuffer)));
    let mut raw = stderr_with(vec![Err(Error::Os(EBADF))]);
    assert_eq!(raw.write_all_vectored(&bufs), Ok(()));
    let empty: [&[u8]; 1] = [b""];
    let mut raw = stderr_with(vec![]);
    assert_eq!(raw.write_all_vectored(&empty), Ok(()));
}

#[test]
fn raw_formatted_output() {
    let mut raw = stdout_with(vec![Ok(1), Ok(2)]);
    assert_eq!(raw.write_fmt(&pieces(&["a", "", "bc"], false)), Ok(()));
    assert_eq!(asked(&raw.0), vec!["write a", "write bc"]);
    let mut raw = stderr_with(vec![Ok(1)]);
    assert_eq!(raw.write_fmt(&pieces(&["a"], true)), Err(Error::Fault(Fault::Formatter)));
    assert_eq!(Fault::Formatter.kind(), ErrorKind::Other);
    assert_eq!(Fault::Formatter.text(), "formatter error");
    let mut raw = stderr_with(vec![Err(Error::Os(5))]);
    assert_eq!(raw.write_fmt(&pieces(&["a", "b"], true)), Err(Error::Os(5)));
    assert_eq!(asked(&raw.0), vec!["write a"]);
}

#[test]
fn a_closed_raw_stream_swallows_the_rest_of_formatted_output() {
    let mut raw = stdout_with(vec![Ok(1), Err(Error::Os(EBADF))]);
    assert_eq!(raw.write_fmt(&pieces(&["a", "b", "c"], false)), Ok(()));
    assert_eq!(asked(&raw.0), vec!["write a", "write b"]);
}
