use stdio::error::{Error, Fault, EBADF, EINTR};
use stdio::format::Arguments;
use stdio::sink::WriteRequest;
use stdio::stderr::{stderr, stderr_locked, Stderr};
use stdio::sync::SyncOnceCell;

const ME: u64 = 1;
const OTHER: u64 = 2;

fn fresh(answers: Vec<Result<usize, Error>>) -> Stderr {
    let mut instance: SyncOnceCell<Stderr> = SyncOnceCell::new();
    let stream = stderr(&mut instance);
    for answer in answers {
        stream.answer(answer);
    }
    stream.clone()
}

fn pieces(texts: &[&str], failed: bool) -> Arguments {
    Arguments { pieces: texts.iter().map(|text| text.to_string()).collect(), failed }
}

#[test]
fn errors_are_not_buffered() {
    let mut stream = fresh(vec![]);
    assert_eq!(stream.write(ME, b"a"), Some(Err(Error::Unanswered)));
    assert!(matches!(stream.pending(), Some(WriteRequest::Write(data)) if data == b"a"));
    stream.settle();
    assert!(stream.pending().is_none());
}

#[test]
fn error_output_in_all_ways() {
    let mut stream = fresh(vec![
        Ok(1),
        Ok(2),
        Ok(0),
        Ok(1),
        Err(Error::Os(EINTR)),
        Ok(1),
        Ok(3),
        Ok(1),
        Ok(1),
    ]);
    assert_eq!(stream.write(ME, b"ab"), Some(Ok(1)));
    let bufs: [&[u8]; 2] = [b"a", b"bc"];
    assert_eq!(stream.write_vectored(ME, &bufs), Some(Ok(2)));
    assert_eq!(stream.flush(ME), Some(Ok(())));
    assert_eq!(stream.write_all(ME, b"ab"), Some(Ok(())));
    assert_eq!(stream.write_all_vectored(ME, &bufs), Some(Ok(())));
    assert_eq!(stream.write_fmt(ME, &pieces(&["x", "y"], false)), Some(Ok(())));
    assert_eq!(stream.is_write_vectored(ME), Some(true));
    assert!(stream.pending().is_none());
    assert_eq!(stream.fmt(), "Stderr { .. }");
}

#[test]
fn the_error_lock_writes_in_all_ways() {
    let mut stream = fresh(vec![Ok(1), Ok(2), Ok(0), Ok(2), Ok(3), Ok(1)]);
    let lock = stream.lock(ME).unwrap();
    let bufs: [&[u8]; 2] = [b"a", b"bc"];
    assert_eq!(lock.write(&mut stream, b"ab"), Ok(1));
    assert_eq!(lock.write_vectored(&mut stream, &bufs), Ok(2));
    assert_eq!(lock.flush(&mut stream), Ok(()));
    assert_eq!(lock.write_all(&mut stream, b"ab"), Ok(()));
    assert_eq!(lock.write_all_vectored(&mut stream, &bufs), Ok(()));
    assert_eq!(
        lock.write_fmt(&mut stream, &pieces(&["x"], true)),
        Err(Error::Fault(Fault::Formatter))
    );
    assert!(lock.is_write_vectored(&stream));
    assert_eq!(lock.fmt(), "StderrLock { .. }");
}

#[test]
fn closed_error_output_goes_unnoticed() {
    let closed = Err(Error::Os(EBADF));
    let mut stream = fresh(vec![closed; 8]);
    assert_eq!(stream.write(ME, b"abc"), Some(Ok(3)));
    let bufs: [&[u8]; 2] = [b"a", b"bc"];
    assert_eq!(stream.write_vectored(ME, &bufs), Some(Ok(3)));
    assert_eq!(stream.flush(ME), Some(Ok(())));
    assert_eq!(stream.write_all(ME, b"abc"), Some(Ok(())));
    assert_eq!(stream.write_all_vectored(ME, &bufs), Some(Ok(())));
    assert_eq!(stream.write_fmt(ME, &pieces(&["x", "y", "z"], false)), Some(Ok(())));
    assert!(stream.pending().is_none());
    assert_eq!(stream.write(ME, b"abc"), Some(Err(Error::Unanswered)));
}

#[test]
fn the_error_lock_may_be_taken_again() {
    let mut instance: SyncOnceCell<Stderr> = SyncOnceCell::new();
    let first = stderr_locked(&mut instance, ME).unwrap();
    let second = stderr_locked(&mut instance, ME).unwrap();
    assert!(stderr_locked(&mut instance, OTHER).is_none());
    let stream = stderr(&mut instance);
    assert_eq!(stream.write(OTHER, b"x"), None);
    assert_eq!(stream.write_vectored(OTHER, &[b"x"]), None);
    assert_eq!(stream.flush(OTHER), None);
    assert_eq!(stream.write_all(OTHER, b"x"), None);
    assert_eq!(stream.write_all_vectored(OTHER, &[b"x"]), None);
    assert_eq!(stream.write_fmt(OTHER, &pieces(&["x"], false)), None);
    assert_eq!(stream.is_write_vectored(OTHER), None);
    first.unlock(stream);
    assert!(stream.lock(OTHER).is_none());
    second.unlock(stream);
    assert!(stream.into_locked(OTHER).is_some());
    assert!(stream.is_countable(ME));
    assert!(stream.lock_any(ME).is_none());
}
