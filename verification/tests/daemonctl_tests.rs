use yoinker::config::test_config;
use yoinker::daemonctl::{
    autostart_failed_message, autostart_timeout_message, connection_error_lines, log_path, parse_pid,
    pid_path, socket_connected_message, start_check, status_action, stop_action, Autostart, AutostartAction,
    StatusAction, StopAction,
};

#[test]
fn pid_path_replaces_extension() {
    let config = test_config("/tmp/yk");
    assert_eq!(pid_path(&config), "/tmp/yk/yoinker-test.pid");
}

#[test]
fn parse_pid_reads_trimmed_number() {
    assert_eq!(parse_pid("1234\n"), Some(1234));
    assert_eq!(parse_pid("  42  "), Some(42));
    assert_eq!(parse_pid("+7"), Some(7));
    assert_eq!(parse_pid("4294967295"), Some(4294967295));
    assert_eq!(parse_pid("4294967296"), None);
    assert_eq!(parse_pid(""), None);
    assert_eq!(parse_pid("+"), None);
    assert_eq!(parse_pid("-1"), None);
    assert_eq!(parse_pid("12a"), None);
    assert_eq!(parse_pid("\u{3000}9\u{a0}"), Some(9));
}

#[test]
fn log_path_is_beside_history() {
    let config = test_config("/tmp/yk");
    assert_eq!(log_path(&config), "/tmp/yk/yoinkerd.log");
}

#[test]
fn start_stop_status_decisions() {
    assert_eq!(start_check(Some(5), true), Err("daemon already running (PID 5)".to_string()));
    assert_eq!(start_check(Some(5), false), Ok(()));
    assert_eq!(start_check(None, false), Ok(()));
    assert_eq!(stop_action(None, false), StopAction::Fail("no PID file found (daemon not running?)".into()));
    assert_eq!(
        stop_action(Some(8), false),
        StopAction::RemoveStaleAndFail("daemon not running (stale PID 8)".into())
    );
    assert_eq!(stop_action(Some(8), true), StopAction::Terminate(8, "sent SIGTERM to daemon (PID 8)".into()));
    assert_eq!(status_action(None, false), StatusAction::Report("daemon not running (no PID file)".into()));
    assert_eq!(status_action(Some(3), true), StatusAction::QuerySocket("daemon running (PID 3)".into()));
    assert_eq!(
        status_action(Some(3), false),
        StatusAction::RemoveStale("daemon not running (stale PID 3)".into())
    );
}

#[test]
fn messages() {
    assert_eq!(socket_connected_message(12), "socket: connected (12 entries)");
    assert_eq!(
        autostart_failed_message("refused", "not found"),
        "refused\nFailed to auto-start: not found\nHint: Start the daemon with: yoinker daemon start"
    );
    assert_eq!(autostart_timeout_message("refused"), "refused\nHint: Start the daemon with: yoinker daemon start");
    let (a, b) = connection_error_lines("boom");
    assert_eq!(a, "connection error: boom");
    assert_eq!(b, "Hint: Start the daemon with: yoinker daemon start");
}

#[test]
fn autostart_gives_up_after_twenty_retries() {
    let mut a = Autostart::new();
    assert_eq!(a.after_send(false, "refused"), AutostartAction::StartDaemon);
    assert_eq!(a.after_start(None), AutostartAction::Send);
    for _ in 0..19 {
        assert_eq!(a.after_send(false, "still refused"), AutostartAction::Send);
    }
    assert_eq!(
        a.after_send(false, "still refused"),
        AutostartAction::GiveUp("refused\nHint: Start the daemon with: yoinker daemon start".into())
    );
}

#[test]
fn autostart_reports_failed_start_and_success() {
    let mut a = Autostart::new();
    assert_eq!(a.after_send(true, ""), AutostartAction::Finish);
    assert_eq!(a.after_send(false, "refused"), AutostartAction::StartDaemon);
    assert_eq!(
        a.after_start(Some("no binary".into())),
        AutostartAction::GiveUp(
            "refused\nFailed to auto-start: no binary\nHint: Start the daemon with: yoinker daemon start".into()
        )
    );
    let mut b = Autostart::new();
    b.after_send(false, "refused");
    b.after_start(None);
    assert_eq!(b.after_send(true, ""), AutostartAction::Finish);
}
