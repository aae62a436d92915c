//! Laws of the shared streams: their locks, how they begin, and printing to them.
use vstd::prelude::*;

use crate::error::{Error, Fault};
use crate::format::Formatted;
use crate::line_writer::Writer;
use crate::print::Printer;
use crate::stderr::{stderr_state, write_pieces, Stderr};
use crate::stdin::{stdin_state, stdin_wf, Stdin};
use crate::stdout::{stdout_state, stdout_wf, unbuffered, Stdout};
use crate::sync::{Locked, Nested, ThreadId};

verus! {

/// A lock that the thread `me` has taken `times` times more.
pub open spec fn acquired_times<T>(lock: Nested<T>, me: ThreadId, times: nat) -> Nested<T>
    decreases times,
{
    if times == 0 {
        lock
    } else {
        acquired_times(lock, me, (times - 1) as nat).acquired(me)
    }
}

/// A lock that was given back `times` times.
pub open spec fn released_times<T>(lock: Nested<T>, times: nat) -> Nested<T>
    decreases times,
{
    if times == 0 {
        lock
    } else {
        released_times(lock.released(), (times - 1) as nat)
    }
}

/// While one thread holds a stream, no other can take it.
pub proof fn law_exclusive<T>(lock: Nested<T>, me: ThreadId, other: ThreadId)
    requires
        lock.held_by(me),
        me != other,
    ensures
        !lock.open_to(other),
        !lock.held_by(other),
{
}

/// A thread that took the lock holds it, may take it again, and leaves everything as it was when
/// it gives the lock back.
pub proof fn law_reentrant<T>(lock: Nested<T>, me: ThreadId)
    requires
        lock.open_to(me),
    ensures
        lock.acquired(me).held_by(me),
        lock.acquired(me).open_to(me),
        lock.acquired(me).value == lock.value,
        lock.acquired(me).released() == lock,
{
}

/// A free lock that a thread took so often is free again when it was given back as often, and not
/// before.
pub proof fn law_released_as_often<T>(lock: Nested<T>, me: ThreadId, taken: nat, back: nat)
    requires
        lock.holder is None,
        back <= taken,
    ensures
        ({
            let now = released_times(acquired_times(lock, me, taken), back);
            &&& now == acquired_times(lock, me, (taken - back) as nat)
            &&& back < taken ==> now.held_by(me)
            &&& back == taken ==> now == lock
        }),
    decreases taken,
{
    lemma_acquired_times(lock, me, taken);
    if back > 0 {
        let before = acquired_times(lock, me, (taken - 1) as nat);
        lemma_acquired_times(lock, me, (taken - 1) as nat);
        law_reentrant(before, me);
        law_released_as_often(lock, me, (taken - 1) as nat, (back - 1) as nat);
    }
}

/// How often a lock was taken is counted.
proof fn lemma_acquired_times<T>(lock: Nested<T>, me: ThreadId, times: nat)
    requires
        lock.holder is None,
    ensures
        ({
            let now = acquired_times(lock, me, times);
            &&& now.value == lock.value
            &&& now.open_to(me)
            &&& times > 0 ==> now.holder == Some((me, (times - 1) as nat))
            &&& times == 0 ==> now == lock
        }),
    decreases times,
{
    if times > 0 {
        lemma_acquired_times(lock, me, (times - 1) as nat);
    }
}

/// What is done to a stream while a thread holds it is there when the thread gives it back, and
/// changes nothing about who holds it.
pub proof fn law_changes_kept<T>(lock: Nested<T>, me: ThreadId, value: T)
    requires
        lock.open_to(me),
    ensures
        lock.acquired(me).with(value).held_by(me),
        lock.acquired(me).with(value).released() == lock.with(value),
{
}

/// Preparing standard output for the end of the process twice is the same as once.
pub proof fn law_cleanup_twice(writer: Writer)
    ensures
        unbuffered(unbuffered(writer)) == unbuffered(writer),
{
}

/// A lock is open to everyone while nobody holds it, and to its holder otherwise. A thread cannot
/// be counted once more only where it has been counted as often as can be.
pub proof fn law_open<T>(lock: Nested<T>, me: ThreadId)
    ensures
        match lock.holder {
            None => lock.open_to(me) && !lock.held_by(me) && lock.countable(me),
            Some((thread, again)) => {
                &&& lock.open_to(me) <==> thread == me
                &&& lock.held_by(me) <==> thread == me
                &&& lock.countable(me) <==> thread != me || again < 0xffff_ffff
            },
        },
{
}

/// Taking and giving back a lock changes who holds it and how often it was taken, by one, and not
/// what it protects.
pub proof fn law_taken<T>(lock: Nested<T>, me: ThreadId)
    ensures
        lock.acquired(me).value == lock.value,
        lock.released().value == lock.value,
        match lock.holder {
            None => {
                &&& lock.acquired(me).holder == Some((me, 0nat))
                &&& lock.released().holder is None
            },
            Some((thread, again)) => {
                &&& thread == me ==> lock.acquired(me).holder == Some((me, again + 1))
                &&& again == 0 ==> lock.released().holder is None
                &&& again > 0 ==> lock.released().holder == Some((thread, (again - 1) as nat))
            },
        },
{
}

/// Another value behind a lock changes nothing about who holds it.
pub proof fn law_with<T>(nested: Nested<T>, locked: Locked<T>, value: T)
    ensures
        nested.with(value).holder == nested.holder,
        nested.with(value).value == value,
        locked.with(value).holder == locked.holder,
        locked.with(value).poisoned == locked.poisoned,
        locked.with(value).value == value,
{
}

/// A process finds the streams as it left them. At first they are free and empty, and the buffers
/// have their sizes.
pub proof fn law_streams(stdin: Stdin, stdout: Stdout, stderr: Stderr)
    ensures
        stdin_state(Some(stdin)) == stdin@,
        stdout_state(Some(stdout)) == stdout@,
        stderr_state(Some(stderr)) == stderr@,
        ({
            let fresh = stdin_state(None);
            &&& fresh.holder is None && !fresh.poisoned
            &&& fresh.value.input.asked.len() == 0 && fresh.value.input.answers.len() == 0
            &&& fresh.value.input.vectored
            &&& fresh.value.unread.len() == 0
            &&& fresh.value.capacity == 8192
        }),
        ({
            let fresh = stdout_state(None);
            &&& fresh.holder is None
            &&& fresh.value.output.asked.len() == 0 && fresh.value.output.answers.len() == 0
            &&& fresh.value.output.vectored
            &&& fresh.value.buffered.len() == 0
            &&& fresh.value.capacity == 1024
        }),
        ({
            let fresh = stderr_state(None);
            &&& fresh.holder is None
            &&& fresh.value.asked.len() == 0 && fresh.value.answers.len() == 0
            &&& fresh.value.vectored
        }),
        stdin_wf(None),
        stdin_wf(Some(stdin)) <==> stdin.wf(),
        stdout_wf(None),
        stdout_wf(Some(stdout)) <==> stdout.wf(),
{
}

/// Printing to a stream that another thread holds has no result and changes nothing. Otherwise it
/// writes the pieces, fails where that or the formatting fails, and leaves the stream as writing
/// the pieces leaves it, held by whoever held it.
pub proof fn law_print(me: ThreadId, args: Formatted, out: Stdout, now: Stdout)
    ensures
        out.usable(me) <==> out.wf() && out@.countable(me),
        !out@.open_to(me) ==> {
            &&& out.outcome(me, args) is None
            &&& out.becomes(me, args, &now) ==> now@ == out@
        },
        out@.open_to(me) ==> {
            let done = out@.value.write_pieces(args.pieces);
            &&& out.outcome(me, args) matches Some(result)
            &&& result is Ok <==> done.result is Ok && !args.failed
            &&& done.result matches Err(error) ==> result == Err::<(), Error>(error)
            &&& done.result is Ok && args.failed ==> result == Err::<(), Error>(
                Error::Fault(Fault::Formatter),
            )
            &&& out.becomes(me, args, &now) ==> now@.holder == out@.holder && now@.value
                == done.writer
        },
        out.becomes(me, args, &now) ==> now.wf(),
{
}

/// As [`law_print`], for standard error.
pub proof fn law_print_error(me: ThreadId, args: Formatted, err: Stderr, now: Stderr)
    ensures
        err.usable(me) <==> err@.countable(me),
        !err@.open_to(me) ==> {
            &&& err.outcome(me, args) is None
            &&& err.becomes(me, args, &now) ==> now@ == err@
        },
        err@.open_to(me) ==> {
            let (output, sent) = write_pieces(err@.value, args.pieces);
            &&& err.outcome(me, args) matches Some(result)
            &&& result is Ok <==> sent is Ok && !args.failed
            &&& sent matches Err(error) ==> result == Err::<(), Error>(error)
            &&& sent is Ok && args.failed ==> result == Err::<(), Error>(
                Error::Fault(Fault::Formatter),
            )
            &&& err.becomes(me, args, &now) ==> now@.holder == err@.holder && now@.value == output
        },
{
}

} // verus!
