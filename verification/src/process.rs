//! Bounded runs of the document converter: the byte cap and time limit,
//! the errors a run ends with, and how the reader threads' reports update
//! what has been captured.
use vstd::prelude::*;
use vstd::string::StringExecFns;

use crate::text::{decimal, owned, push_decimal};

verus! {

/// An I/O failure, carried through unopened.
#[verifier::external_type_specification]
#[verifier::external_body]
pub struct ExIoError(std::io::Error);

/// Seconds the converter may run.
pub const PANDOC_TIMEOUT_SECS: u64 = 60;

/// Bytes of stdout and stderr together that a run may produce.
pub const PANDOC_OUTPUT_LIMIT_BYTES: usize = 50 * 1024 * 1024;

/// How a bounded run failed.
pub enum BoundedProcessError {
    /// Spawning, waiting or reading failed.
    Io(std::io::Error),
    /// The run took longer than `timeout`.
    TimedOut { timeout: std::time::Duration },
    /// Together the streams passed `limit` bytes while `stream` was read.
    OutputLimitExceeded { stream: &'static str, limit: usize },
}

/// Which output stream a report is about.
#[derive(Clone, Copy, PartialEq, Eq, Structural, Debug)]
pub enum StreamKind {
    Stdout,
    Stderr,
}

/// What a reader thread reports: its stream ended (with all it read, or a
/// read error), or the byte cap was reached (with what it had read).
pub enum StreamEvent {
    Finished(StreamKind, Result<Vec<u8>, std::io::Error>),
    Capped(StreamKind, Vec<u8>),
}

/// Takes one reader report into the captured state: the stream's bytes are
/// kept and it is marked done. A capped stream is named in the result, for
/// the caller to stop the run; a read error is returned, leaving the state
/// as it was.
pub fn handle_stream_event(
    event: StreamEvent,
    stdout_done: &mut bool,
    stderr_done: &mut bool,
    stdout: &mut Option<Vec<u8>>,
    stderr: &mut Option<Vec<u8>>,
) -> (r: Result<Option<&'static str>, BoundedProcessError>)
    ensures
        match event {
            StreamEvent::Finished(StreamKind::Stdout, Ok(bytes)) => r matches Ok(None) && *final(stdout)
                == Some(bytes) && *final(stdout_done) && *final(stderr) == *old(stderr) && *final(stderr_done) == *old(stderr_done),
            StreamEvent::Finished(StreamKind::Stderr, Ok(bytes)) => r matches Ok(None) && *final(stderr)
                == Some(bytes) && *final(stderr_done) && *final(stdout) == *old(stdout) && *final(stdout_done) == *old(stdout_done),
            StreamEvent::Finished(_, Err(e)) => r matches Err(BoundedProcessError::Io(x)) && x == e
                && *final(stdout) == *old(stdout) && *final(stderr) == *old(stderr) && *final(stdout_done) == *old(stdout_done) && *final(stderr_done) == *old(stderr_done),
            StreamEvent::Capped(StreamKind::Stdout, bytes) => r matches Ok(Some(s)) && s@
                == "stdout"@ && *final(stdout) == Some(bytes) && *final(stdout_done) && *final(stderr)
                == *old(stderr) && *final(stderr_done) == *old(stderr_done),
            StreamEvent::Capped(StreamKind::Stderr, bytes) => r matches Ok(Some(s)) && s@
                == "stderr"@ && *final(stderr) == Some(bytes) && *final(stderr_done) && *final(stdout)
                == *old(stdout) && *final(stdout_done) == *old(stdout_done),
        },
{
    match event {
        StreamEvent::Finished(kind, result) => {
            let bytes = match result {
                Ok(b) => b,
                Err(e) => {
                    return Err(BoundedProcessError::Io(e));
                },
            };
            match kind {
                StreamKind::Stdout => {
                    *stdout = Some(bytes);
                    *stdout_done = true;
                },
                StreamKind::Stderr => {
                    *stderr = Some(bytes);
                    *stderr_done = true;
                },
            }
            Ok(None)
        },
        StreamEvent::Capped(kind, output) => {
            match kind {
                StreamKind::Stdout => {
                    *stdout = Some(output);
                    *stdout_done = true;
                    Ok(Some("stdout"))
                },
                StreamKind::Stderr => {
                    *stderr = Some(output);
                    *stderr_done = true;
                    Ok(Some("stderr"))
                },
            }
        },
    }
}

/// The message of an output cap error.
pub open spec fn limit_message(limit: nat, stream: Seq<char>) -> Seq<char> {
    "combined output exceeded "@ + decimal(limit) + " byte limit while reading "@ + stream
}

/// The text of an I/O failure. Calls `<std::io::Error as Display>::fmt`;
/// the text comes from the operating system, and the contract says
/// nothing of it.
#[verifier::external_body]
fn io_error_text(e: &std::io::Error) -> String {
    format!("{}", e)
}

/// The whole seconds of a duration. Calls `Duration::as_secs`; the
/// duration is opaque here, so the contract says nothing of the number.
#[verifier::external_body]
fn duration_secs(d: &std::time::Duration) -> u64 {
    d.as_secs()
}

impl BoundedProcessError {
    /// The text shown for the error.
    pub fn to_text(&self) -> (r: String)
        ensures
            self matches BoundedProcessError::OutputLimitExceeded { stream, limit } ==> r@ == limit_message(
                limit as nat,
                stream@,
            ),
            self is TimedOut ==> r@.len() >= 24 && r@.take(24) == "process timed out after "@,
    {
        match self {
            BoundedProcessError::Io(err) => io_error_text(err),
            BoundedProcessError::TimedOut { timeout } => {
                let mut m = owned("process timed out after ");
                let secs = duration_secs(timeout);
                if secs <= usize::MAX as u64 {
                    push_decimal(&mut m, secs as usize);
                }
                m.append(" seconds");
                proof {
                    reveal_strlit("process timed out after ");
                    assert(m@.take(24) =~= "process timed out after "@);
                }
                m
            },
            BoundedProcessError::OutputLimitExceeded { stream, limit } => {
                let mut m = owned("combined output exceeded ");
                push_decimal(&mut m, *limit);
                m.append(" byte limit while reading ");
                m.append(stream);
                m
            },
        }
    }
}

/// How many of `read` new bytes a reader may keep when `total_read` bytes
/// of both streams are already kept: what is left under `limit`, at most
/// `read`.
pub open spec fn allowed_spec(total_read: nat, read: nat, limit: nat) -> nat {
    if total_read >= limit {
        0
    } else if read <= limit - total_read {
        read
    } else {
        (limit - total_read) as nat
    }
}

/// The bytes of a new chunk a reader may keep, and the shared count after
/// keeping them.
pub fn allowed_bytes(total_read: usize, read: usize, limit: usize) -> (r: (usize, usize))
    ensures
        r.0 == allowed_spec(total_read as nat, read as nat, limit as nat),
        r.1 == total_read + r.0,
{
    let remaining = if total_read >= limit { 0 } else { limit - total_read };
    let allowed = if read <= remaining { read } else { remaining };
    (allowed, total_read + allowed)
}

/// Takes a chunk a reader read into its stream's output: the allowed part
/// of it is kept and counted against the shared total of both streams.
/// True when part of the chunk had to be left out, which ends the read.
pub fn take_chunk(output: &mut Vec<u8>, chunk: &[u8], total_read: &mut usize, limit: usize) -> (capped: bool)
    ensures
        ({
            let a = allowed_spec(*old(total_read) as nat, chunk@.len(), limit as nat);
            &&& final(output)@ == old(output)@ + chunk@.take(a as int)
            &&& *final(total_read) == *old(total_read) + a
            &&& capped == (a < chunk@.len())
        }),
{
    let (allowed, next) = allowed_bytes(*total_read, chunk.len(), limit);
    let ghost before = output@;
    let mut k: usize = 0;
    while k < allowed
        invariant
            k <= allowed,
            allowed <= chunk@.len(),
            output@ == before + chunk@.take(k as int),
        decreases allowed - k,
    {
        output.push(chunk[k]);
        proof {
            assert(chunk@.take(k + 1) =~= chunk@.take(k as int).push(chunk@[k as int]));
            assert(before + chunk@.take(k + 1) =~= (before + chunk@.take(k as int)).push(chunk@[k as int]));
        }
        k = k + 1;
    }
    *total_read = next;
    allowed < chunk.len()
}

/// The combined output cap holds: when the kept bytes of both streams add
/// up to the shared count and that count is within `limit`, taking a chunk
/// into either stream keeps both true.
pub proof fn law_capture_within_limit(kept_stdout: nat, kept_stderr: nat, total_read: nat, read: nat, limit: nat)
    requires
        kept_stdout + kept_stderr == total_read,
        total_read <= limit,
    ensures
        (kept_stdout + allowed_spec(total_read, read, limit)) + kept_stderr == total_read + allowed_spec(total_read, read, limit),
        kept_stdout + (kept_stderr + allowed_spec(total_read, read, limit)) == total_read + allowed_spec(total_read, read, limit),
        total_read + allowed_spec(total_read, read, limit) <= limit,
        allowed_spec(total_read, read, limit) <= read,
{
}

/// What the supervisor of a bounded run knows between loop turns.
pub struct RunState {
    /// The child's exit has been seen.
    pub exited: bool,
    /// The process tree was killed once the child had exited.
    pub killed_after_exit: bool,
    pub stdout_done: bool,
    pub stderr_done: bool,
    pub stdout: Option<Vec<u8>>,
    pub stderr: Option<Vec<u8>>,
}

/// What happened since the last step.
pub enum RunEvent {
    /// A new loop turn: whether the child has exited by now, and whether the
    /// deadline has passed.
    Tick { exited: bool, deadline_passed: bool },
    /// A reader report arrived.
    Report(StreamEvent),
    /// No report arrived within the wait.
    Quiet,
    /// Both readers are gone.
    Disconnected,
}

/// What the supervisor does next.
pub enum RunAction {
    /// Wait for the next report.
    Wait,
    /// Kill the process tree (the child has exited; what it started must not
    /// hold the pipes open), then wait for the next report.
    KillAfterExit,
    /// The child exited and both streams are read: the run is over.
    Finish,
    /// Kill the tree, drain the reports, and fail with `TimedOut`.
    TimeOut,
    /// Kill the tree, drain the reports, and fail with
    /// `OutputLimitExceeded` for this stream.
    CapReached(&'static str),
    /// Fail with this error.
    Fail(BoundedProcessError),
    /// Kill the tree and fail: the readers vanished before finishing.
    ReadersLost,
}

/// A new empty run state.
pub fn new_run_state() -> (st: RunState)
    ensures
        !st.exited && !st.killed_after_exit && !st.stdout_done && !st.stderr_done,
        st.stdout is None && st.stderr is None,
{
    RunState { exited: false, killed_after_exit: false, stdout_done: false, stderr_done: false, stdout: None, stderr: None }
}

/// One step of supervising a bounded run. On a tick the run finishes once
/// the child exited and both streams are read; otherwise the tree is killed
/// once after the child exits, and a passed deadline ends the run. A report
/// is taken in as `handle_stream_event` does; a cap ends the run. Readers
/// that vanish before both streams are done end it too.
pub fn bounded_step(st: &mut RunState, ev: RunEvent) -> (a: RunAction)
    ensures
        match ev {
            RunEvent::Tick { exited, deadline_passed } => {
                let ex = old(st).exited || exited;
                &&& final(st).exited == ex
                &&& final(st).stdout_done == old(st).stdout_done && final(st).stderr_done == old(st).stderr_done
                &&& final(st).stdout == old(st).stdout && final(st).stderr == old(st).stderr
                &&& if ex && old(st).stdout_done && old(st).stderr_done {
                    a is Finish && final(st).killed_after_exit == old(st).killed_after_exit
                } else {
                    &&& final(st).killed_after_exit == (old(st).killed_after_exit || ex)
                    &&& if deadline_passed {
                        a is TimeOut
                    } else if ex && !old(st).killed_after_exit {
                        a is KillAfterExit
                    } else {
                        a is Wait
                    }
                }
            },
            RunEvent::Report(event) => {
                &&& final(st).exited == old(st).exited && final(st).killed_after_exit == old(st).killed_after_exit
                &&& match event {
                    StreamEvent::Finished(StreamKind::Stdout, Ok(bytes)) => a is Wait && final(st).stdout == Some(bytes)
                        && final(st).stdout_done && final(st).stderr == old(st).stderr
                        && final(st).stderr_done == old(st).stderr_done,
                    StreamEvent::Finished(StreamKind::Stderr, Ok(bytes)) => a is Wait && final(st).stderr == Some(bytes)
                        && final(st).stderr_done && final(st).stdout == old(st).stdout
                        && final(st).stdout_done == old(st).stdout_done,
                    StreamEvent::Finished(_, Err(e)) => a matches RunAction::Fail(BoundedProcessError::Io(x)) && x == e
                        && final(st).stdout == old(st).stdout && final(st).stderr == old(st).stderr
                        && final(st).stdout_done == old(st).stdout_done && final(st).stderr_done == old(st).stderr_done,
                    StreamEvent::Capped(StreamKind::Stdout, bytes) => a matches RunAction::CapReached(s) && s@ == "stdout"@
                        && final(st).stdout == Some(bytes) && final(st).stdout_done && final(st).stderr == old(st).stderr
                        && final(st).stderr_done == old(st).stderr_done,
                    StreamEvent::Capped(StreamKind::Stderr, bytes) => a matches RunAction::CapReached(s) && s@ == "stderr"@
                        && final(st).stderr == Some(bytes) && final(st).stderr_done && final(st).stdout == old(st).stdout
                        && final(st).stdout_done == old(st).stdout_done,
                }
            },
            RunEvent::Quiet => a is Wait && *final(st) == *old(st),
            RunEvent::Disconnected => *final(st) == *old(st) && (if old(st).stdout_done && old(st).stderr_done {
                a is Wait
            } else {
                a is ReadersLost
            }),
        },
{
    match ev {
        RunEvent::Tick { exited, deadline_passed } => {
            if exited {
                st.exited = true;
            }
            if st.exited && st.stdout_done && st.stderr_done {
                return RunAction::Finish;
            }
            let kill_now = st.exited && !st.killed_after_exit;
            if st.exited {
                st.killed_after_exit = true;
            }
            if deadline_passed {
                RunAction::TimeOut
            } else if kill_now {
                RunAction::KillAfterExit
            } else {
                RunAction::Wait
            }
        },
        RunEvent::Report(event) => {
            match handle_stream_event(event, &mut st.stdout_done, &mut st.stderr_done, &mut st.stdout, &mut st.stderr) {
                Ok(None) => RunAction::Wait,
                Ok(Some(stream)) => RunAction::CapReached(stream),
                Err(e) => RunAction::Fail(e),
            }
        },
        RunEvent::Quiet => RunAction::Wait,
        RunEvent::Disconnected => {
            if st.stdout_done && st.stderr_done {
                RunAction::Wait
            } else {
                RunAction::ReadersLost
            }
        },
    }
}

} // verus!
