//! Printing to the standard streams.
use vstd::prelude::*;
use vstd::string::*;

use crate::error::Error;
use crate::format::{Arguments, Formatted};
use crate::sink::format_result;
use crate::stderr::{stderr, stderr_state, write_pieces, Stderr};
use crate::stdout::{stdout, stdout_state, stdout_wf, Stdout};
use crate::sync::{SyncOnceCell, ThreadId};

verus! {

/// A shared stream that takes formatted output.
pub trait Printer: Sized {
    /// Whether the stream is in order, and the thread `me` can be counted as its holder.
    spec fn usable(&self, me: ThreadId) -> bool;

    /// What writing `args` returns. There is no result where `me` has to wait for the lock.
    spec fn outcome(&self, me: ThreadId, args: Formatted) -> Option<Result<(), Error>>;

    /// Whether `now` is the stream after writing `args`.
    spec fn becomes(&self, me: ThreadId, args: Formatted, now: &Self) -> bool;

    /// Writes formatted output.
    fn print_fmt(&mut self, me: ThreadId, args: &Arguments) -> (done: Option<Result<(), Error>>)
        requires
            old(self).usable(me),
        ensures
            done == old(self).outcome(me, args@),
            old(self).becomes(me, args@, final(self)),
    ;
}

impl Printer for Stdout {
    open spec fn usable(&self, me: ThreadId) -> bool {
        self.wf() && self@.countable(me)
    }

    open spec fn outcome(&self, me: ThreadId, args: Formatted) -> Option<Result<(), Error>> {
        if self@.open_to(me) {
            Some(format_result(self@.value.write_pieces(args.pieces).result, args.failed))
        } else {
            None
        }
    }

    open spec fn becomes(&self, me: ThreadId, args: Formatted, now: &Stdout) -> bool {
        &&& now.wf()
        &&& now@ == if self@.open_to(me) {
            self@.with(self@.value.write_pieces(args.pieces).writer)
        } else {
            self@
        }
    }

    fn print_fmt(&mut self, me: ThreadId, args: &Arguments) -> (done: Option<Result<(), Error>>) {
        self.write_fmt(me, args)
    }
}

impl Printer for Stderr {
    open spec fn usable(&self, me: ThreadId) -> bool {
        self@.countable(me)
    }

    open spec fn outcome(&self, me: ThreadId, args: Formatted) -> Option<Result<(), Error>> {
        if self@.open_to(me) {
            Some(format_result(write_pieces(self@.value, args.pieces).1, args.failed))
        } else {
            None
        }
    }

    open spec fn becomes(&self, me: ThreadId, args: Formatted, now: &Stderr) -> bool {
        now@ == if self@.open_to(me) {
            self@.with(write_pieces(self@.value, args.pieces).0)
        } else {
            self@
        }
    }

    fn print_fmt(&mut self, me: ThreadId, args: &Arguments) -> (done: Option<Result<(), Error>>) {
        self.write_fmt(me, args)
    }
}

/// Printing failed. A program that prints has no other way out than to panic.
pub struct PrintError {
    /// The name of the stream.
    pub label: String,
    /// What went wrong.
    pub error: Error,
}

impl PrintError {
    /// The message of the panic; `detail` says in words what went wrong.
    pub fn message(&self, detail: &str) -> (text: String)
        ensures
            text@ == "failed printing to "@ + self.label@ + ": "@ + detail@,
    {
        let mut text = "failed printing to ".to_owned();
        text.append(self.label.as_str());
        text.append(": ");
        text.append(detail);
        text
    }

    /// The message of the panic where this library found the error, and so has the words for it.
    /// For an error of the host they are the host's: see [`PrintError::message`].
    pub fn fault_message(&self) -> (text: Option<String>)
        ensures
            match self.error {
                Error::Fault(fault) => {
                    &&& text matches Some(text)
                    &&& text@ == "failed printing to "@ + self.label@ + ": "@ + fault.spec_text()
                },
                _ => text is None,
            },
    {
        match self.error {
            Error::Fault(fault) => Some(self.message(fault.text())),
            _ => None,
        }
    }
}

/// What printing to the stream `label` returns, if writing returned `done`.
pub open spec fn is_printed(
    printed: Option<Result<(), PrintError>>,
    done: Option<Result<(), Error>>,
    label: Seq<char>,
) -> bool {
    match done {
        None => printed is None,
        Some(Ok(_)) => printed == Some(Ok::<(), PrintError>(())),
        Some(Err(error)) => {
            &&& printed matches Some(Err(failed))
            &&& failed.label@ == label
            &&& failed.error == error
        },
    }
}

/// Prints `args` to `stream`, which the message of a panic calls `label`. There is no result where
/// `me` has to wait for the lock.
pub fn print_to<T: Printer>(
    stream: &mut T,
    me: ThreadId,
    args: &Arguments,
    label: &str,
) -> (printed: Option<Result<(), PrintError>>)
    requires
        old(stream).usable(me),
    ensures
        is_printed(printed, old(stream).outcome(me, args@), label@),
        old(stream).becomes(me, args@, final(stream)),
{
    match stream.print_fmt(me, args) {
        None => None,
        Some(Ok(())) => Some(Ok(())),
        Some(Err(error)) => Some(Err(PrintError { label: label.to_owned(), error })),
    }
}

/// Prints `args` to the standard output of the process.
pub fn _print(instance: &mut SyncOnceCell<Stdout>, me: ThreadId, args: &Arguments) -> (printed:
    Option<Result<(), PrintError>>)
    requires
        stdout_wf(old(instance)@),
        stdout_state(old(instance)@).countable(me),
    ensures
        stdout_wf(final(instance)@),
        final(instance)@ is Some,
        ({
            let before = stdout_state(old(instance)@);
            let now = stdout_state(final(instance)@);
            if before.open_to(me) {
                let done = before.value.write_pieces(args@.pieces);
                &&& now == before.with(done.writer)
                &&& is_printed(
                    printed,
                    Some(format_result(done.result, args@.failed)),
                    "stdout"@,
                )
            } else {
                now == before && printed is None
            }
        }),
{
    print_to(stdout(instance), me, args, "stdout")
}

/// Prints `args` to the standard error of the process.
pub fn _eprint(instance: &mut SyncOnceCell<Stderr>, me: ThreadId, args: &Arguments) -> (printed:
    Option<Result<(), PrintError>>)
    requires
        stderr_state(old(instance)@).countable(me),
    ensures
        final(instance)@ is Some,
        ({
            let before = stderr_state(old(instance)@);
            let now = stderr_state(final(instance)@);
            if before.open_to(me) {
                let sent = write_pieces(before.value, args@.pieces);
                &&& now == before.with(sent.0)
                &&& is_printed(printed, Some(format_result(sent.1, args@.failed)), "stderr"@)
            } else {
                now == before && printed is None
            }
        }),
{
    print_to(stderr(instance), me, args, "stderr")
}

} // verus!
