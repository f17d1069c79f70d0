use debug_console::reconnect::ReconnectManager;
use debug_console::error::SerialError;
use debug_console::state_manager::{FileOp, StateManager, TargetState};
use debug_console::statusline_watch::{
    mirror_prefix, parse_watch_args, registry_projects, shm_cache_path, source_cache_path,
    worth_mirroring, ProjectSource,
};

const SECOND: u64 = 1_000_000_000;

fn manager(hang_timeout: u64, hysteresis: u32) -> StateManager {
    StateManager::new("/p", hang_timeout, hysteresis, ".dut-serial", "", "/dev/shm/status-", "/p")
}

fn written<'a>(ops: &'a [FileOp], path: &str) -> Option<&'a str> {
    ops.iter().find_map(|op| match op {
        FileOp::Write { path: p, content } if p == path => Some(content.as_str()),
        _ => None,
    })
}

#[test]
fn test_target_state_display() {
    assert_eq!(TargetState::Active.as_str(), "active");
    assert_eq!(TargetState::Booting.as_str(), "booting");
    assert_eq!(TargetState::Crashed.as_str(), "crashed");
    assert_eq!(TargetState::Disconnected.as_str(), "disconnected");
    assert_eq!(TargetState::Stopped.as_str(), "stopped");
}

#[test]
fn test_format_statusline_all_states() {
    let sm = manager(60, 3);
    for state in &[
        TargetState::Active,
        TargetState::Booting,
        TargetState::UBoot,
        TargetState::Crashed,
        TargetState::Disconnected,
        TargetState::DutOff,
    ] {
        let text = sm.format_statusline(*state);
        assert!(!text.is_empty());
        assert!(text.contains('\x1b'));
    }
}

#[test]
fn test_target_state_as_str() {
    assert_eq!(TargetState::Stopped.as_str(), "stopped");
    assert_eq!(TargetState::Connecting.as_str(), "connecting");
    assert_eq!(TargetState::Active.as_str(), "active");
    assert_eq!(TargetState::Booting.as_str(), "booting");
    assert_eq!(TargetState::Booted.as_str(), "booted");
    assert_eq!(TargetState::UBoot.as_str(), "uboot");
    assert_eq!(TargetState::Crashed.as_str(), "crashed");
    assert_eq!(TargetState::DutOff.as_str(), "DUT-off");
    assert_eq!(TargetState::Disconnected.as_str(), "disconnected");
}

#[test]
fn test_target_state_from_str() {
    assert_eq!(TargetState::from_str("stopped"), TargetState::Stopped);
    assert_eq!(TargetState::from_str("active"), TargetState::Active);
    assert_eq!(TargetState::from_str("DUT-off"), TargetState::DutOff);
    assert_eq!(TargetState::from_str("unknown"), TargetState::Disconnected);
}

#[test]
fn test_hang_candidate() {
    assert!(!TargetState::Stopped.is_hang_candidate());
    assert!(!TargetState::Connecting.is_hang_candidate());
    assert!(TargetState::Active.is_hang_candidate());
    assert!(TargetState::Booting.is_hang_candidate());
    assert!(!TargetState::Booted.is_hang_candidate());
    assert!(!TargetState::UBoot.is_hang_candidate());
    assert!(!TargetState::Crashed.is_hang_candidate());
    assert!(!TargetState::DutOff.is_hang_candidate());
    assert!(!TargetState::Disconnected.is_hang_candidate());
    assert!(TargetState::Dutabo.is_hang_candidate());
}

#[test]
fn test_initial_state() {
    let sm = manager(60, 3);
    assert_eq!(sm.current(), TargetState::Stopped);
    assert_eq!(sm.external_state(), None);
}

#[test]
fn test_state_transitions() {
    let mut sm = manager(60, 3);
    sm.transition(TargetState::Active);
    assert_eq!(sm.current(), TargetState::Active);
    assert_eq!(sm.external_state(), Some(TargetState::Active));
    sm.transition(TargetState::Booting);
    assert_eq!(sm.current(), TargetState::Booting);
    assert_eq!(sm.external_state(), Some(TargetState::Booting));
    sm.transition(TargetState::Booted);
    assert_eq!(sm.current(), TargetState::Booted);
}

#[test]
fn test_connecting_not_external() {
    let mut sm = manager(60, 3);
    sm.transition(TargetState::Connecting);
    assert_eq!(sm.current(), TargetState::Connecting);
    assert_eq!(sm.external_state(), None);
}

#[test]
fn test_hang_detection_not_candidate() {
    let mut sm = manager(1, 2);
    sm.transition(TargetState::Active);
    sm.check_hang();
    assert_eq!(sm.current(), TargetState::Active);
    sm.transition(TargetState::Booted);
    sm.check_hang();
    assert_eq!(sm.current(), TargetState::Booted);
}

#[test]
fn test_disconnected_state() {
    let mut sm = manager(60, 3);
    sm.transition(TargetState::Disconnected);
    assert_eq!(sm.current(), TargetState::Disconnected);
    assert_eq!(sm.external_state(), Some(TargetState::Disconnected));
}

#[test]
fn test_format_statusline_all_states_have_text() {
    let sm = manager(60, 3);
    for state in &[
        TargetState::Active,
        TargetState::Booting,
        TargetState::Booted,
        TargetState::UBoot,
        TargetState::Crashed,
        TargetState::Disconnected,
        TargetState::DutOff,
    ] {
        let text = sm.format_statusline(*state);
        assert!(!text.is_empty(), "{:?} should have statusline text", state);
    }
    assert_eq!(sm.format_statusline(TargetState::Stopped), "");
    assert_eq!(sm.format_statusline(TargetState::Connecting), "");
}

#[test]
fn state_files_follow_the_state() {
    let mut sm = manager(60, 3);
    let ops = sm.transition(TargetState::Active);
    assert_eq!(written(&ops, "/p/.dut-serial/target-state"), Some("active"));
    let cache = written(&ops, "/p/.dut-serial/statusline-cache").unwrap();
    assert!(cache.contains("serial:active"));
    let mirror = shm_cache_path("/p", "/dev/shm/status-");
    assert!(written(&ops, &mirror).unwrap().contains("serial:active"));
    assert!(sm.transition(TargetState::Active).is_empty());
    let ops = sm.transition(TargetState::Connecting);
    assert_eq!(written(&ops, "/p/.dut-serial/target-state"), None);
    let ops = sm.transition(TargetState::Crashed);
    assert_eq!(written(&ops, "/p/.dut-serial/target-state"), Some("crashed"));
    assert!(ops.iter().any(|o| matches!(o, FileOp::Notify { state: TargetState::Crashed })));
}

#[test]
fn silence_while_booting_means_that_the_target_is_off() {
    let mut sm = manager(10, 2);
    sm.transition(TargetState::Booting);
    sm.on_activity_at(SECOND);
    sm.check_hang_at(5 * SECOND);
    assert_eq!(sm.current(), TargetState::Booting);
    sm.check_hang_at(12 * SECOND);
    assert_eq!(sm.current(), TargetState::Booting);
    sm.check_hang_at(13 * SECOND);
    assert_eq!(sm.current(), TargetState::DutOff);
}

#[test]
fn activity_starts_the_count_again() {
    let mut sm = manager(0, 3);
    sm.transition(TargetState::Booting);
    sm.check_hang_at(SECOND);
    sm.on_activity_at(2 * SECOND);
    sm.check_hang_at(3 * SECOND);
    sm.check_hang_at(4 * SECOND);
    assert_eq!(sm.current(), TargetState::Booting);
    assert_eq!(sm.last_data_elapsed_at(4 * SECOND), 2 * SECOND);
}

#[test]
fn probes_are_remembered() {
    let mut sm = manager(60, 3);
    sm.heartbeat_pending = true;
    assert!(sm.heartbeat_due());
    sm.mark_probe_sent_at(SECOND);
    assert!(!sm.heartbeat_pending);
    sm.inc_command();
    sm.inc_error();
    assert_eq!((sm.command_count(), sm.error_count()), (1, 1));
}

#[test]
fn a_silent_target_is_probed_before_it_counts_as_off() {
    let mut sm = manager(60, 1);
    sm.transition(TargetState::Active);
    sm.on_activity_at(SECOND);
    sm.check_hang_at(30 * SECOND);
    assert!(!sm.heartbeat_pending);
    // The first long silence only asks for a probe, however often it is seen.
    for later in 62..80 {
        assert!(sm.check_hang_at(later * SECOND).is_empty());
        assert_eq!(sm.current(), TargetState::Active);
        assert!(sm.heartbeat_pending);
    }
    sm.mark_probe_sent_at(80 * SECOND);
    sm.check_hang_at(85 * SECOND);
    assert_eq!(sm.current(), TargetState::Active);
    sm.check_hang_at(86 * SECOND);
    assert_eq!(sm.current(), TargetState::DutOff);
}

#[test]
fn an_answered_probe_keeps_the_target_active() {
    let mut sm = manager(60, 1);
    sm.transition(TargetState::Active);
    sm.on_activity_at(SECOND);
    sm.check_hang_at(62 * SECOND);
    sm.mark_probe_sent_at(62 * SECOND);
    sm.on_activity_at(63 * SECOND);
    sm.check_hang_at(70 * SECOND);
    assert_eq!(sm.current(), TargetState::Active);
    sm.check_hang_at(124 * SECOND);
    assert_eq!(sm.current(), TargetState::Active);
    assert!(sm.heartbeat_pending);
}

#[test]
fn fewer_misses_than_the_threshold_are_forgiven() {
    let mut sm = manager(60, 3);
    sm.transition(TargetState::Active);
    sm.on_activity_at(0);
    sm.check_hang_at(61 * SECOND);
    for n in 0..2 {
        sm.mark_probe_sent_at((62 + 10 * n) * SECOND);
        sm.check_hang_at((68 + 10 * n) * SECOND);
        assert_eq!(sm.current(), TargetState::Active);
        assert!(sm.heartbeat_pending);
    }
    sm.mark_probe_sent_at(82 * SECOND);
    sm.check_hang_at(88 * SECOND);
    assert_eq!(sm.current(), TargetState::DutOff);
}

#[test]
fn notifications_say_what_to_do() {
    let n = StateManager::notification(TargetState::Crashed).unwrap();
    assert_eq!((n.state, n.severity), ("crashed", "critical"));
    assert!(n.suggested_action.contains("serial_get_logs"));
    assert_eq!(StateManager::notification(TargetState::DutOff).unwrap().state, "DUT-off");
    let lost = StateManager::notification(TargetState::Disconnected).unwrap();
    assert!(lost.message.contains("Serial connection lost"));
    assert!(StateManager::notification(TargetState::Active).is_none());
    assert_eq!(
        manager(60, 3).notification_path("20240101_000000", TargetState::Crashed),
        "/p/.dut-serial/notifications/20240101_000000-crashed.json"
    );
}

#[test]
fn a_project_is_identified_by_its_path() {
    // The digest of the empty text is d41d8cd98f00b204e9800998ecf8427e.
    assert_eq!(StateManager::project_hash(""), "d41d8cd9");
    assert_ne!(StateManager::project_hash("/a"), StateManager::project_hash("/b"));
    assert_eq!(shm_cache_path("", &mirror_prefix(true, "s-")), "/dev/shm/s-d41d8cd9");
    assert_eq!(mirror_prefix(false, "s-"), "/tmp/s-");
    assert_eq!(source_cache_path("/p"), "/p/.dut-serial/statusline-cache");
    assert!(worth_mirroring(b"x"));
    assert!(!worth_mirroring(b""));
}

#[test]
fn labels_are_shown() {
    assert_eq!(
        StateManager::format_statusline_labeled(TargetState::UBoot, "b"),
        "\x1b[36m● b:uboot\x1b[0m"
    );
}

#[test]
fn watched_projects_are_read_from_the_command_line() {
    let args = |l: &[&str]| l.iter().map(|s| s.to_string()).collect::<Vec<String>>();
    let v = parse_watch_args(&args(&["--project-dir", "/a", "--registry", "/r"])).unwrap();
    assert!(matches!(&v[0], ProjectSource::Dir(d) if d == "/a"));
    assert!(matches!(&v[1], ProjectSource::Registry(d) if d == "/r"));
    assert!(parse_watch_args(&args(&["--bogus"])).is_none());
    assert_eq!(parse_watch_args(&args(&["--project-dir"])).unwrap().len(), 0);
    assert_eq!(registry_projects(" /a \n\n/b\r\n"), vec!["/a".to_string(), "/b".to_string()]);
}

#[test]
fn reconnecting_backs_off() {
    let mut r = ReconnectManager::new();
    let delays: Vec<u64> = (0..7).map(|_| r.next_delay_at(0)).collect();
    assert_eq!(delays, vec![1, 2, 4, 8, 16, 30, 30]);
    assert_eq!(r.attempts(), 7);
    assert_eq!(r.next_delay_at(61 * SECOND), 1);
    assert_eq!(r.attempts(), 1);
    r.reset();
    assert_eq!(r.attempts(), 0);
    assert_eq!(r.current_backoff(), 1);
    assert_eq!(ReconnectManager::default().next_delay(), 1);
}

#[test]
fn errors_are_sorted() {
    let x = || "x".to_string();
    let all = vec![
        (SerialError::ConnectionFailed(x()), "Connection failed: x", "connection", true),
        (SerialError::OperationTimeout, "Operation timed out", "communication", true),
        (SerialError::CommandCancelled, "Command cancelled", "communication", true),
        (SerialError::InvalidConfig(x()), "Invalid configuration: x", "configuration", false),
        (SerialError::Io(x()), "I/O error: x", "system", false),
        (SerialError::Json(x()), "Serialization error: x", "serialization", false),
        (SerialError::Internal(x()), "Internal error: x", "internal", false),
    ];
    for (e, message, category, recoverable) in &all {
        assert_eq!(e.message(), *message);
        assert_eq!(e.category(), *category);
        assert_eq!(e.is_recoverable(), *recoverable);
    }
}
