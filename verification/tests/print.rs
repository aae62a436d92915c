use stdio::error::{Error, Fault, EBADF};
use stdio::format::Arguments;
use stdio::print::{_eprint, _print, print_to};
use stdio::stderr::{stderr, stderr_locked, Stderr};
use stdio::stdout::{stdout, stdout_locked, Stdout};
use stdio::sync::SyncOnceCell;

const ME: u64 = 1;
const OTHER: u64 = 2;

fn pieces(texts: &[&str], failed: bool) -> Arguments {
    Arguments { pieces: texts.iter().map(|text| text.to_string()).collect(), failed }
}

#[test]
fn printing_writes_all_pieces() {
    let mut instance: SyncOnceCell<Stdout> = SyncOnceCell::new();
    stdout(&mut instance).answer(Ok(9));
    assert!(matches!(_print(&mut instance, ME, &pieces(&["x = ", "1234", "\n"], false)), Some(Ok(()))));
    assert!(stdout(&mut instance).pending().is_none());
}

#[test]
fn printing_that_fails_says_where() {
    let mut instance: SyncOnceCell<Stdout> = SyncOnceCell::new();
    stdout(&mut instance).answer(Err(Error::Os(5)));
    match _print(&mut instance, ME, &pieces(&["x\n"], false)) {
        Some(Err(failed)) => {
            assert_eq!(failed.error, Error::Os(5));
            assert_eq!(failed.label, "stdout");
            assert_eq!(
                failed.message("Input/output error (os error 5)"),
                "failed printing to stdout: Input/output error (os error 5)"
            );
        }
        _ => panic!("printing should fail"),
    }
}

#[test]
fn error_printing_that_fails_says_where() {
    let mut instance: SyncOnceCell<Stderr> = SyncOnceCell::new();
    match _eprint(&mut instance, ME, &pieces(&[], true)) {
        Some(Err(failed)) => {
            assert_eq!(failed.error, Error::Fault(Fault::Formatter));
            assert_eq!(
                failed.message(Fault::Formatter.text()),
                "failed printing to stderr: formatter error"
            );
        }
        _ => panic!("printing should fail"),
    }
}

#[test]
fn printing_to_closed_streams_goes_unnoticed() {
    let mut out: SyncOnceCell<Stdout> = SyncOnceCell::new();
    stdout(&mut out).answer(Err(Error::Os(EBADF)));
    assert!(matches!(_print(&mut out, ME, &pieces(&["x\n"], false)), Some(Ok(()))));
    let mut err: SyncOnceCell<Stderr> = SyncOnceCell::new();
    stderr(&mut err).answer(Err(Error::Os(EBADF)));
    assert!(matches!(_eprint(&mut err, ME, &pieces(&["x"], false)), Some(Ok(()))));
}

#[test]
fn printing_waits_for_the_lock() {
    let mut out: SyncOnceCell<Stdout> = SyncOnceCell::new();
    let lock = stdout_locked(&mut out, OTHER).unwrap();
    assert!(_print(&mut out, ME, &pieces(&["x"], false)).is_none());
    assert!(matches!(_print(&mut out, OTHER, &pieces(&["x"], false)), Some(Ok(()))));
    lock.unlock(stdout(&mut out));
    assert!(matches!(_print(&mut out, ME, &pieces(&["x"], false)), Some(Ok(()))));
    let mut err: SyncOnceCell<Stderr> = SyncOnceCell::new();
    let _lock = stderr_locked(&mut err, OTHER).unwrap();
    assert!(_eprint(&mut err, ME, &pieces(&["x"], false)).is_none());
}

#[test]
fn printing_to_a_stream_by_another_name() {
    let mut err: SyncOnceCell<Stderr> = SyncOnceCell::new();
    stderr(&mut err).answer(Ok(0));
    match print_to(stderr(&mut err), ME, &pieces(&["x"], false), "log") {
        Some(Err(failed)) => {
            assert_eq!(failed.message(Fault::WriteBuffer.text()), "failed printing to log: failed to write whole buffer");
        }
        _ => panic!("printing should fail"),
    }
}

#[test]
fn the_library_has_the_words_for_its_own_errors_only() {
    let mut err: SyncOnceCell<Stderr> = SyncOnceCell::new();
    stderr(&mut err).answer(Ok(0));
    stderr(&mut err).answer(Err(Error::Os(5)));
    match _eprint(&mut err, ME, &pieces(&["x"], false)) {
        Some(Err(failed)) => assert_eq!(
            failed.fault_message(),
            Some("failed printing to stderr: failed to write whole buffer".to_string())
        ),
        _ => panic!("printing should fail"),
    }
    match _eprint(&mut err, ME, &pieces(&["x"], false)) {
        Some(Err(failed)) => assert_eq!(failed.fault_message(), None),
        _ => panic!("printing should fail"),
    }
}
