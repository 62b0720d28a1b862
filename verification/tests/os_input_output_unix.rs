use zellij_server::os_input_output_unix::{
    write_progress, CommandExitWatch, ExitAction, SizeAction, UnixPtyBackend, WriteAttempt,
    WriteProgress, TERMINATE_ATTEMPTS,
};

#[test]
fn terminal_ids_count_up_and_wrap() {
    let mut b = UnixPtyBackend::new();
    assert_eq!(b.next_terminal_id(), Some(0));
    assert_eq!(b.next_terminal_id(), Some(1));
    b.next_terminal_id_counter = u32::MAX;
    assert_eq!(b.next_terminal_id(), Some(u32::MAX));
    assert_eq!(b.next_terminal_id(), Some(0));
}

#[test]
fn reserved_terminals_have_no_pty_until_registered() {
    let mut b = UnixPtyBackend::new();
    b.reserve_terminal_id(3);
    assert_eq!(b.raw_fd(3), None);
    assert_eq!(b.set_terminal_size(3, 80, 24, None, None), SizeAction::NoPty);
    b.register_terminal_fd(3, 11);
    assert_eq!(b.raw_fd(3), Some(11));
    assert_eq!(
        b.set_terminal_size(3, 80, 24, Some(800), None),
        SizeAction::Resize(11, 80, 24, 800, 0)
    );
    assert_eq!(b.set_terminal_size(3, 0, 24, None, None), SizeAction::Skip);
    assert_eq!(b.set_terminal_size(3, 80, 0, None, None), SizeAction::Skip);
    b.clear_terminal_id(3);
    assert_eq!(b.raw_fd(3), None);
}

#[test]
fn writes_stop_when_the_pty_is_full() {
    assert_eq!(write_progress(0, 10, WriteAttempt::Wrote(4)), WriteProgress::Continue(4));
    assert_eq!(write_progress(4, 10, WriteAttempt::Wrote(6)), WriteProgress::Done(10));
    assert_eq!(write_progress(4, 10, WriteAttempt::Wrote(0)), WriteProgress::Done(4));
    assert_eq!(write_progress(4, 10, WriteAttempt::Interrupted), WriteProgress::Continue(4));
    assert_eq!(write_progress(4, 10, WriteAttempt::WouldBlock), WriteProgress::Done(4));
    assert_eq!(write_progress(4, 10, WriteAttempt::Failed), WriteProgress::Error);
}

#[test]
fn a_stopped_command_is_asked_three_times_then_killed() {
    let mut w = CommandExitWatch::new();
    assert_eq!(TERMINATE_ATTEMPTS, 3);
    assert_eq!(w.step(None, false), ExitAction::KeepWaiting);
    assert_eq!(w.step(None, true), ExitAction::KeepWaiting);
    assert!(w.should_exit);
    assert_eq!(w.step(None, false), ExitAction::Terminate);
    assert_eq!(w.step(None, false), ExitAction::Terminate);
    assert_eq!(w.step(None, false), ExitAction::Terminate);
    assert_eq!(w.step(None, false), ExitAction::Kill);
}

#[test]
fn an_exited_command_reports_its_status() {
    let mut w = CommandExitWatch::new();
    assert_eq!(w.step(Some(Some(0)), true), ExitAction::Exited(Some(0)));
    assert!(!w.should_exit);
    assert_eq!(w.step(Some(None), false), ExitAction::Exited(None));
}
