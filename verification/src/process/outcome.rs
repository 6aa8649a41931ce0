//! How the run of a process ends: faults, the output with its limits, and the
//! facts recorded of it.
use vstd::prelude::*;
use vstd::string::*;

use crate::arith;
use crate::process::capture;
use crate::process::capture::PipeCapture;
use crate::text;

verus! {

/// Limits on what is kept of the two streams.
#[derive(Clone, Copy, Debug, PartialEq, Eq, Structural)]
pub struct ProcessOutputBudget {
    pub stdout_bytes: usize,
    pub stderr_bytes: usize,
}

impl ProcessOutputBudget {
    /// The same limit for both streams.
    pub fn per_stream(bytes: usize) -> (r: ProcessOutputBudget)
        ensures
            r.stdout_bytes == bytes,
            r.stderr_bytes == bytes,
    {
        ProcessOutputBudget { stdout_bytes: bytes, stderr_bytes: bytes }
    }
}

/// What sort of failure an operating-system call or a run met.
#[derive(Clone, Copy, Debug, PartialEq, Eq, Structural)]
pub enum FaultKind {
    NotFound,
    PermissionDenied,
    BrokenPipe,
    Interrupted,
    InvalidInput,
    TimedOut,
    Other,
}

/// A failure with its words.
#[derive(Debug)]
pub struct ProcessFault {
    pub kind: FaultKind,
    pub message: String,
}

/// The words of a captured stream inside a failure.
pub open spec fn described(capture: Result<PipeCapture, ProcessFault>) -> Seq<char> {
    match capture {
        Ok(capture) => text::lossy(capture.bytes@) + if capture.discarded_bytes == 0 {
            Seq::empty()
        } else {
            "\n["@ + text::decimal(capture.discarded_bytes as nat)
                + " bytes omitted by capture limit]"@
        },
        Err(fault) => "[capture failed: "@ + fault.message@ + "]"@,
    }
}

fn describe(stream: &Result<PipeCapture, ProcessFault>) -> (r: String)
    ensures
        r@ == described(*stream),
{
    match stream {
        Ok(capture) => {
            let mut out = text::lossy_text(capture.bytes.as_slice());
            if capture.discarded_bytes != 0 {
                let count = text::decimal_of(capture.discarded_bytes as u64);
                out.append("\n[");
                out.append(count.as_str());
                out.append(" bytes omitted by capture limit]");
            }
            assert(out@ =~= described(*stream));
            out
        },
        Err(fault) => {
            let mut out = "[capture failed: ".to_owned();
            out.append(fault.message.as_str());
            out.append("]");
            out
        },
    }
}

/// The words of a failure together with what both streams had said.
pub open spec fn with_streams(
    message: Seq<char>,
    stdout: Result<PipeCapture, ProcessFault>,
    stderr: Result<PipeCapture, ProcessFault>,
) -> Seq<char> {
    message + "\nstdout:\n"@ + described(stdout) + "\nstderr:\n"@ + described(stderr)
}

/// Adds the captured output of both streams to a failure.
pub fn process_error_with_output(
    error: ProcessFault,
    stdout: &Result<PipeCapture, ProcessFault>,
    stderr: &Result<PipeCapture, ProcessFault>,
) -> (r: ProcessFault)
    ensures
        r.kind == error.kind,
        r.message@ == with_streams(error.message@, *stdout, *stderr),
{
    let mut message = error.message;
    let out = describe(stdout);
    let err = describe(stderr);
    message.append("\nstdout:\n");
    message.append(out.as_str());
    message.append("\nstderr:\n");
    message.append(err.as_str());
    ProcessFault { kind: error.kind, message }
}

/// How a process exited; without a code where a signal ended it.
#[derive(Clone, Copy, Debug, PartialEq, Eq, Structural)]
pub struct ProcessExit {
    pub code: Option<i32>,
}

/// The result of one run.
#[derive(Debug)]
pub struct ProcessRunOutput {
    pub exit: ProcessExit,
    pub stdout: Vec<u8>,
    pub stderr: Vec<u8>,
    pub timed_out: bool,
    pub cancelled: bool,
    pub stdout_discarded_bytes: usize,
    pub stderr_discarded_bytes: usize,
}

/// What ends a run that was interrupted: the failure to end its descendants
/// first, then the missing confirmation of its own end.
pub open spec fn interrupted_exit(
    tree: Result<(), ProcessFault>,
    exit: Option<ProcessExit>,
    result: Result<ProcessExit, ProcessFault>,
) -> bool {
    match tree {
        Err(fault) => result matches Err(e) && e.kind == FaultKind::Other && e.message@
            == "process interrupted; descendant termination unconfirmed; side effects may still occur: "@
            + fault.message@,
        Ok(_) => match exit {
            Some(exit) => result == Ok::<ProcessExit, ProcessFault>(exit),
            None => result matches Err(e) && e.kind == FaultKind::TimedOut && e.message@
                == "process interrupted but termination is unconfirmed; do not automatically repeat the operation"@,
        },
    }
}

/// The exit of an interrupted process, once its tree was told to end.
pub fn interrupted(tree: Result<(), ProcessFault>, exit: Option<ProcessExit>) -> (r: Result<
    ProcessExit,
    ProcessFault,
>)
    ensures
        interrupted_exit(tree, exit, r),
{
    match tree {
        Err(fault) => {
            let mut message =
                "process interrupted; descendant termination unconfirmed; side effects may still occur: ".to_owned();
            message.append(fault.message.as_str());
            Err(ProcessFault { kind: FaultKind::Other, message })
        },
        Ok(_) => match exit {
            Some(exit) => Ok(exit),
            None => Err(
                ProcessFault {
                    kind: FaultKind::TimedOut,
                    message:
                        "process interrupted but termination is unconfirmed; do not automatically repeat the operation".to_owned(),
                },
            ),
        },
    }
}

/// The failure of a program that no search found.
pub fn not_found(program: &str) -> (r: ProcessFault)
    ensures
        r.kind == FaultKind::NotFound,
        r.message@ == "executable not found: "@ + program@,
{
    let mut message = "executable not found: ".to_owned();
    message.append(program);
    ProcessFault { kind: FaultKind::NotFound, message }
}

/// Puts a run's result together. A failed run carries what both streams said;
/// otherwise the first stream that could not be read fails the run.
pub fn conclude(
    status: Result<ProcessExit, ProcessFault>,
    stdout: Result<PipeCapture, ProcessFault>,
    stderr: Result<PipeCapture, ProcessFault>,
    timed_out: bool,
    cancelled: bool,
) -> (r: Result<ProcessRunOutput, ProcessFault>)
    ensures
        match status {
            Err(error) => r matches Err(e) && e.kind == error.kind && e.message@ == with_streams(
                error.message@,
                stdout,
                stderr,
            ),
            Ok(exit) => match (stdout, stderr) {
                (Err(error), _) => r == Err::<ProcessRunOutput, ProcessFault>(error),
                (Ok(_), Err(error)) => r == Err::<ProcessRunOutput, ProcessFault>(error),
                (Ok(out), Ok(err)) => r == Ok::<ProcessRunOutput, ProcessFault>(
                    ProcessRunOutput {
                        exit,
                        stdout: out.bytes,
                        stderr: err.bytes,
                        timed_out,
                        cancelled,
                        stdout_discarded_bytes: out.discarded_bytes,
                        stderr_discarded_bytes: err.discarded_bytes,
                    },
                ),
            },
        },
{
    match status {
        Err(error) => Err(process_error_with_output(error, &stdout, &stderr)),
        Ok(exit) => match stdout {
            Err(error) => Err(error),
            Ok(out) => match stderr {
                Err(error) => Err(error),
                Ok(err) => Ok(
                    ProcessRunOutput {
                        exit,
                        stdout: out.bytes,
                        stderr: err.bytes,
                        timed_out,
                        cancelled,
                        stdout_discarded_bytes: out.discarded_bytes,
                        stderr_discarded_bytes: err.discarded_bytes,
                    },
                ),
            },
        },
    }
}

/// Facts observed while running one process. They describe the execution only;
/// whether the task around it succeeded is another matter.
#[derive(Clone, Copy, Debug, PartialEq, Eq, Structural)]
pub struct ProcessExecutionFacts {
    pub exit_code: Option<i32>,
    pub timed_out: bool,
    pub cancelled: bool,
    pub stdout_bytes: u64,
    pub stderr_bytes: u64,
    pub stdout_discarded_bytes: u64,
    pub stderr_discarded_bytes: u64,
}

impl ProcessExecutionFacts {
    /// The facts of a finished run; the byte counts cover what was discarded.
    pub fn from_output(output: &ProcessRunOutput) -> (r: ProcessExecutionFacts)
        ensures
            r == (ProcessExecutionFacts {
                exit_code: output.exit.code,
                timed_out: output.timed_out,
                cancelled: output.cancelled,
                stdout_bytes: arith::clamp64(
                    output.stdout@.len() + output.stdout_discarded_bytes,
                ),
                stderr_bytes: arith::clamp64(
                    output.stderr@.len() + output.stderr_discarded_bytes,
                ),
                stdout_discarded_bytes: output.stdout_discarded_bytes as u64,
                stderr_discarded_bytes: output.stderr_discarded_bytes as u64,
            }),
    {
        let stdout_discarded_bytes: u64 = output.stdout_discarded_bytes as u64;
        let stderr_discarded_bytes: u64 = output.stderr_discarded_bytes as u64;
        let out: u64 = output.stdout.len() as u64;
        let err: u64 = output.stderr.len() as u64;
        ProcessExecutionFacts {
            exit_code: output.exit.code,
            timed_out: output.timed_out,
            cancelled: output.cancelled,
            stdout_bytes: out.saturating_add(stdout_discarded_bytes),
            stderr_bytes: err.saturating_add(stderr_discarded_bytes),
            stdout_discarded_bytes,
            stderr_discarded_bytes,
        }
    }
}

/// The kept and the discarded bytes of a stream add up to the whole of it.
pub proof fn law_capture_accounts_for_stream(stream: Seq<u8>, budget: usize)
    requires
        stream.len() <= usize::MAX,
    ensures
        capture::kept(stream, budget as int).len() + capture::lost(stream, budget as int)
            == stream.len(),
        capture::lost(stream, budget as int) >= 0,
{
}

/// What the monitor of a running process says is next.
#[derive(Clone, Copy, Debug, PartialEq, Eq, Structural)]
pub enum RunStep {
    /// The process has exited and both streams are drained.
    Exited,
    /// The process is to be ended, for a cancellation or past its time.
    Interrupt { cancelled: bool },
    /// Wait for so many nanoseconds, after a report where one is due.
    Wait { report: bool, wait: u128 },
}

/// Nanoseconds between two looks at a running process.
pub const POLL_INTERVAL: u128 = 5_000_000;

/// Nanoseconds between two progress reports.
pub const REPORT_INTERVAL: u128 = 1_000_000_000;

/// Longest time that is counted, in nanoseconds: `2^64` seconds less one.
pub const LONGEST: u128 = 18_446_744_073_709_551_615_999_999_999;

/// The clock of one run: its time limit, and when the next report is due. Both
/// are nanoseconds from the start.
#[derive(Clone, Copy, Debug, PartialEq, Eq, Structural)]
pub struct RunMonitor {
    pub timeout: u128,
    pub next_report: u128,
}

impl RunMonitor {
    /// A run that starts now.
    pub fn start(timeout: u128) -> (r: RunMonitor)
        ensures
            r.timeout == timeout,
            r.next_report == REPORT_INTERVAL,
    {
        RunMonitor { timeout, next_report: REPORT_INTERVAL }
    }

    /// Decides on one look at the process: whether it has exited, whether both
    /// streams are drained, whether it was cancelled, and the time passed.
    pub fn poll(&mut self, exited: bool, drained: bool, cancelled: bool, elapsed: u128) -> (r:
        RunStep)
        ensures
            final(self).timeout == old(self).timeout,
            r == (if exited && drained {
                RunStep::Exited
            } else if cancelled || elapsed >= old(self).timeout {
                RunStep::Interrupt { cancelled }
            } else {
                RunStep::Wait {
                    report: elapsed >= old(self).next_report,
                    wait: if old(self).timeout - elapsed < POLL_INTERVAL {
                        (old(self).timeout - elapsed) as u128
                    } else {
                        POLL_INTERVAL
                    },
                }
            }),
            final(self).next_report == (if r matches RunStep::Wait { report, .. } && report {
                if old(self).next_report + REPORT_INTERVAL > LONGEST {
                    LONGEST as int
                } else {
                    old(self).next_report + REPORT_INTERVAL
                }
            } else {
                old(self).next_report as int
            }),
    {
        if exited && drained {
            return RunStep::Exited;
        }
        if cancelled || elapsed >= self.timeout {
            return RunStep::Interrupt { cancelled };
        }
        let report = elapsed >= self.next_report;
        if report {
            if self.next_report >= LONGEST - REPORT_INTERVAL {
                self.next_report = LONGEST;
            } else {
                self.next_report = self.next_report + REPORT_INTERVAL;
            }
        }
        let left: u128 = self.timeout - elapsed;
        let wait: u128 = if left < POLL_INTERVAL {
            left
        } else {
            POLL_INTERVAL
        };
        RunStep::Wait { report, wait }
    }
}

/// The words that tell the system's `kill` to end a whole process group.
pub fn termination_args(pid: u32) -> (r: Vec<String>)
    ensures
        text::texts(r@) == seq!["-KILL"@, "--"@, "-"@ + text::decimal(pid as nat)],
{
    let mut group = "-".to_owned();
    let number = text::decimal_of(pid as u64);
    group.append(number.as_str());
    let mut out: Vec<String> = Vec::new();
    out.push("-KILL".to_owned());
    out.push("--".to_owned());
    out.push(group);
    assert(text::texts(out@) =~= seq!["-KILL"@, "--"@, "-"@ + text::decimal(pid as nat)]);
    out
}

/// How the termination utility ended, as far as it did.
#[derive(Debug)]
pub enum UtilityEnd {
    Succeeded,
    Exited { status: String },
    StillRunning,
}

/// Whether the process tree counts as ended.
pub fn termination_outcome(end: UtilityEnd) -> (r: Result<(), ProcessFault>)
    ensures
        match end {
            UtilityEnd::Succeeded => r is Ok,
            UtilityEnd::Exited { status } => r matches Err(e) && e.kind == FaultKind::Other
                && e.message@ == "termination utility exited with "@ + status@,
            UtilityEnd::StillRunning => r matches Err(e) && e.kind == FaultKind::TimedOut
                && e.message@ == "termination utility timed out"@,
        },
{
    match end {
        UtilityEnd::Succeeded => Ok(()),
        UtilityEnd::Exited { status } => {
            let mut message = "termination utility exited with ".to_owned();
            message.append(status.as_str());
            Err(ProcessFault { kind: FaultKind::Other, message })
        },
        UtilityEnd::StillRunning => Err(
            ProcessFault {
                kind: FaultKind::TimedOut,
                message: "termination utility timed out".to_owned(),
            },
        ),
    }
}

} // verus!
