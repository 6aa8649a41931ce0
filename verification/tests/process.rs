use slim_core::process::capture::{bound_last_line, PipeBuffer, PipeKind, PipeProgress};
use slim_core::process::outcome::{
    conclude, interrupted, not_found, process_error_with_output, termination_args,
    termination_outcome, FaultKind, ProcessExit, ProcessFault, RunMonitor, RunStep, UtilityEnd,
    POLL_INTERVAL, REPORT_INTERVAL,
};
use slim_core::process::resolver::{
    executable_names, names_a_place, next_place, Lookup, EXECUTABLE_CACHE_CAPACITY,
};
use slim_core::process::{
    ExecutableResolver, PipeCapture, ProcessExecutionFacts, ProcessOutputBudget,
};

fn fault(kind: FaultKind, message: &str) -> ProcessFault {
    ProcessFault { kind, message: message.to_owned() }
}

fn capture(bytes: &[u8], discarded_bytes: usize) -> PipeCapture {
    PipeCapture { bytes: bytes.to_vec(), discarded_bytes }
}

#[test]
fn interruption_error_preserves_captured_output_and_limits() {
    let stdout = Ok(capture(b"partial stdout", 7));
    let stderr = Ok(capture(b"partial stderr", 0));
    let error = process_error_with_output(
        fault(FaultKind::TimedOut, "termination unconfirmed"),
        &stdout,
        &stderr,
    );
    assert_eq!(error.kind, FaultKind::TimedOut);
    let message = error.message;
    assert!(message.contains("termination unconfirmed"));
    assert!(message.contains("stdout:\npartial stdout"));
    assert!(message.contains("stderr:\npartial stderr"));
    assert!(message.contains("7 bytes omitted"));
}

#[test]
fn interruption_error_keeps_other_stream_when_one_reader_fails() {
    let error = process_error_with_output(
        fault(FaultKind::Other, "termination unconfirmed"),
        &Ok(capture(b"completed effect receipt", 0)),
        &Err(fault(FaultKind::Other, "broken reader")),
    );
    let message = error.message;
    assert!(message.contains("completed effect receipt"));
    assert!(message.contains("capture failed: broken reader"));
}

#[test]
fn output_that_is_not_utf8_is_shown_with_replacements() {
    let error = process_error_with_output(
        fault(FaultKind::Other, "stopped"),
        &Ok(capture(b"a\xffb", 0)),
        &Ok(capture(b"", 0)),
    );
    assert!(error.message.contains("a\u{FFFD}b"), "{}", error.message);
}

#[test]
fn a_pipe_keeps_its_head_and_its_tail() {
    let kept = PipeBuffer::new(4).take(b"abcdef").take(b"gh").finish();
    assert_eq!(kept.discarded_bytes, 4);
    assert_eq!(kept.bytes.len(), 4);
    assert!(kept.bytes.starts_with(b"a"));
    assert!(kept.bytes.ends_with(b"h"));

    let whole = PipeBuffer::new(8).take(b"abc").take(b"def").finish();
    assert_eq!(whole.bytes, b"abcdef");
    assert_eq!(whole.discarded_bytes, 0);

    let none = PipeBuffer::new(0).take(b"abc").finish();
    assert!(none.bytes.is_empty());
    assert_eq!(none.discarded_bytes, 3);
}

#[test]
fn progress_counts_bytes_and_shows_the_last_line() {
    let mut progress = PipeProgress::default();
    progress.note(PipeKind::Stdout, b"one\ntwo\n");
    progress.note(PipeKind::Stderr, b"err");
    let shown = progress.snapshot(5_000_000);
    assert_eq!(shown.elapsed_ms, 5);
    assert_eq!(shown.stdout_bytes, 8);
    assert_eq!(shown.stderr_bytes, 3);
    assert_eq!(shown.last_line, "err");
    assert!(bound_last_line(&"x".repeat(400)).chars().count() <= 161);
}

#[test]
fn a_run_ends_by_exit_cancellation_or_time() {
    let second: u128 = 1_000_000_000;
    let mut monitor = RunMonitor::start(2 * second);
    assert!(matches!(monitor.poll(true, true, false, 1), RunStep::Exited));
    assert!(matches!(
        monitor.poll(false, false, true, 1),
        RunStep::Interrupt { cancelled: true }
    ));
    assert!(matches!(
        monitor.poll(true, false, false, 2 * second),
        RunStep::Interrupt { cancelled: false }
    ));
    match monitor.poll(false, false, false, 1) {
        RunStep::Wait { report, wait } => {
            assert!(!report);
            assert_eq!(wait, POLL_INTERVAL);
        }
        _ => panic!("expected to wait"),
    }
    match monitor.poll(false, false, false, REPORT_INTERVAL) {
        RunStep::Wait { report, .. } => assert!(report),
        _ => panic!("expected to wait"),
    }
}

#[test]
fn the_facts_of_a_run_are_those_of_its_output() {
    let output = match conclude(
        Ok(ProcessExit { code: Some(3) }),
        Ok(capture(b"abc", 2)),
        Ok(capture(b"", 0)),
        true,
        false,
    ) {
        Ok(output) => output,
        Err(_) => panic!("output"),
    };
    assert_eq!(output.stdout, b"abc");
    let facts = ProcessExecutionFacts::from_output(&output);
    assert_eq!(facts.exit_code, Some(3));
    assert!(facts.timed_out && !facts.cancelled);
    assert_eq!(facts.stdout_discarded_bytes, 2);

    let error = match conclude(
        Err(fault(FaultKind::TimedOut, "termination unconfirmed")),
        Ok(capture(b"kept", 0)),
        Ok(capture(b"", 0)),
        true,
        false,
    ) {
        Ok(_) => panic!("expected a fault"),
        Err(error) => error,
    };
    assert_eq!(error.kind, FaultKind::TimedOut);
    assert!(error.message.contains("kept"));
}

#[test]
fn an_interrupted_run_owes_an_exit() {
    assert!(matches!(
        interrupted(Ok(()), Some(ProcessExit { code: None })),
        Ok(ProcessExit { code: None })
    ));
    assert!(interrupted(Ok(()), None).is_err());
    assert!(interrupted(Err(fault(FaultKind::Other, "x")), Some(ProcessExit { code: None })).is_err());
    assert_eq!(not_found("tool").kind, FaultKind::NotFound);
    assert!(not_found("tool").message.contains("tool"));
}

#[test]
fn termination_is_asked_of_the_whole_group() {
    assert_eq!(termination_args(42), vec!["-KILL", "--", "-42"]);
    assert!(termination_outcome(UtilityEnd::Succeeded).is_ok());
    let late = match termination_outcome(UtilityEnd::StillRunning) {
        Ok(()) => panic!("expected a fault"),
        Err(error) => error,
    };
    assert_eq!(late.kind, FaultKind::TimedOut);
    assert_eq!(late.message, "termination utility timed out");
    let failed = match termination_outcome(UtilityEnd::Exited { status: "exit status: 1".into() }) {
        Ok(()) => panic!("expected a fault"),
        Err(error) => error,
    };
    assert_eq!(failed.message, "termination utility exited with exit status: 1");
    assert_eq!(ProcessOutputBudget::per_stream(9).stderr_bytes, 9);
}

#[test]
fn what_was_found_is_found_again_until_the_cache_forgets() {
    let resolver = ExecutableResolver::new();
    let key = resolver.key(b"git".to_vec(), b"/bin".to_vec(), Vec::new());
    assert!(matches!(resolver.lookup(&key), Lookup::Unknown));
    let resolver = resolver.insert(key, Some(b"/bin/git".to_vec()));
    let key = resolver.key(b"git".to_vec(), b"/bin".to_vec(), Vec::new());
    match resolver.lookup(&key) {
        Lookup::Candidate { place } => assert_eq!(place, b"/bin/git"),
        _ => panic!("remembered"),
    }
    let (resolver, kept) = resolver.settle(key, false);
    assert!(!kept);
    let key = resolver.key(b"git".to_vec(), b"/bin".to_vec(), Vec::new());
    assert!(matches!(resolver.lookup(&key), Lookup::Unknown));

    let absent = resolver.key(b"gone".to_vec(), b"/bin".to_vec(), Vec::new());
    let mut resolver = resolver.insert(absent, None);
    let absent = resolver.key(b"gone".to_vec(), b"/bin".to_vec(), Vec::new());
    assert!(matches!(resolver.lookup(&absent), Lookup::Absent));
    for index in 0..EXECUTABLE_CACHE_CAPACITY {
        let key = resolver.key(format!("p{index}").into_bytes(), Vec::new(), Vec::new());
        resolver = resolver.insert(key, None);
    }
    assert!(matches!(resolver.lookup(&absent), Lookup::Unknown));

    let key = resolver.key(b"p9".to_vec(), Vec::new(), Vec::new());
    assert!(matches!(resolver.lookup(&key), Lookup::Absent));
    let resolver = resolver.bump_generation();
    let key = resolver.key(b"p9".to_vec(), Vec::new(), Vec::new());
    assert!(matches!(resolver.lookup(&key), Lookup::Unknown));
}

#[test]
fn names_are_tried_with_their_extensions() {
    assert_eq!(executable_names("git", false, ".EXE;.CMD"), vec!["git"]);
    let names = executable_names("git", true, ".EXE;.CMD");
    assert!(names.iter().any(|name| name.eq_ignore_ascii_case("git.exe")), "{names:?}");
    assert!(names.iter().any(|name| name.eq_ignore_ascii_case("git.cmd")), "{names:?}");
}

#[test]
fn directories_are_searched_in_order_and_names_in_each() {
    let mut places = Vec::new();
    let mut last = None;
    while let Some(place) = next_place(last, 2, 3) {
        places.push(place);
        last = Some(place);
    }
    assert_eq!(places, vec![(0, 0), (0, 1), (0, 2), (1, 0), (1, 1), (1, 2)]);
    assert_eq!(next_place(None, 0, 3), None);
    assert_eq!(next_place(None, 3, 0), None);
    assert!(names_a_place(true, 1) && names_a_place(false, 2) && !names_a_place(false, 1));
}
