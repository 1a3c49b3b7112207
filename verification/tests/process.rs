use chickenscratch_core::process::{
    allowed_bytes, bounded_step, new_run_state, take_chunk, BoundedProcessError, RunAction, RunEvent, StreamEvent,
    StreamKind,
};

#[test]
fn allowed_bytes_keeps_what_is_left_under_the_cap() {
    assert_eq!(allowed_bytes(0, 10, 100), (10, 10));
    assert_eq!(allowed_bytes(95, 10, 100), (5, 100));
    assert_eq!(allowed_bytes(100, 10, 100), (0, 100));
    assert_eq!(allowed_bytes(120, 10, 100), (0, 120));
}

#[test]
fn the_cap_covers_both_streams_together() {
    let mut total = 0usize;
    let mut out = Vec::new();
    let mut err = Vec::new();
    assert!(!take_chunk(&mut out, &[1u8; 6], &mut total, 10));
    assert!(take_chunk(&mut err, &[2u8; 6], &mut total, 10));
    assert_eq!(out.len() + err.len(), 10);
    assert_eq!(err, vec![2u8; 4]);
    assert_eq!(total, 10);
}

#[test]
fn a_run_finishes_once_the_child_exited_and_both_streams_are_read() {
    let mut st = new_run_state();
    assert!(matches!(bounded_step(&mut st, RunEvent::Tick { exited: false, deadline_passed: false }), RunAction::Wait));
    assert!(matches!(bounded_step(&mut st, RunEvent::Tick { exited: true, deadline_passed: false }), RunAction::KillAfterExit));
    assert!(st.killed_after_exit);
    assert!(matches!(bounded_step(&mut st, RunEvent::Tick { exited: false, deadline_passed: false }), RunAction::Wait));
    assert!(matches!(bounded_step(&mut st, RunEvent::Report(StreamEvent::Finished(StreamKind::Stdout, Ok(b"hi".to_vec())))), RunAction::Wait));
    assert!(matches!(bounded_step(&mut st, RunEvent::Disconnected), RunAction::ReadersLost));
    assert!(matches!(bounded_step(&mut st, RunEvent::Report(StreamEvent::Finished(StreamKind::Stderr, Ok(Vec::new())))), RunAction::Wait));
    assert!(matches!(bounded_step(&mut st, RunEvent::Quiet), RunAction::Wait));
    assert!(matches!(bounded_step(&mut st, RunEvent::Tick { exited: false, deadline_passed: true }), RunAction::Finish));
    assert_eq!(st.stdout, Some(b"hi".to_vec()));
}

#[test]
fn deadline_and_cap_end_a_run() {
    let mut st = new_run_state();
    assert!(matches!(bounded_step(&mut st, RunEvent::Tick { exited: false, deadline_passed: true }), RunAction::TimeOut));
    let mut st = new_run_state();
    match bounded_step(&mut st, RunEvent::Report(StreamEvent::Capped(StreamKind::Stderr, vec![1, 2]))) {
        RunAction::CapReached(s) => assert_eq!(s, "stderr"),
        _ => panic!("expected CapReached"),
    }
    let e = std::io::Error::other("boom");
    match bounded_step(&mut st, RunEvent::Report(StreamEvent::Finished(StreamKind::Stdout, Err(e)))) {
        RunAction::Fail(BoundedProcessError::Io(x)) => assert_eq!(x.to_string(), "boom"),
        _ => panic!("expected Fail"),
    }
}
