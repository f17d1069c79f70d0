use debug_console::boot_detector::{
    apply_learned, apply_stages, boot_stage, crash_stage, handle_stage, BootEvent,
    BootStageDetector, CycleFlags, StageAction, CRASH_COUNT, STAGE_COUNT,
};
use debug_console::stage_learner::{jaccard_similarity, StageLearner};

const SECOND: u64 = 1_000_000_000;

fn has_event(events: &[BootEvent], variant_name: &str) -> bool {
    events.iter().any(|e| match (e, variant_name) {
        (BootEvent::BootStart, "BootStart") => true,
        (BootEvent::Autoboot, "Autoboot") => true,
        (BootEvent::LoginPrompt, "LoginPrompt") => true,
        (BootEvent::PasswordPrompt, "PasswordPrompt") => true,
        (BootEvent::Crash(_, _), "Crash") => true,
        (BootEvent::Stage(_), "Stage") => true,
        _ => false,
    })
}

fn get_stage_name(events: &[BootEvent]) -> Option<&str> {
    events.iter().find_map(|e| match e {
        BootEvent::Stage(name) => Some(name.as_str()),
        _ => None,
    })
}

#[test]
fn test_spl_detection() {
    let mut detector = BootStageDetector::new();
    let events = detector.feed(b"U-Boot SPL 2024.01\n");
    assert!(has_event(&events, "BootStart"));
}

#[test]
fn test_ddr_version_detection() {
    let mut detector = BootStageDetector::new();
    let events = detector.feed(b"DDR Version 1.08\n");
    assert_eq!(get_stage_name(&events), Some("ddr"));
}

#[test]
fn test_uboot_detection() {
    let mut detector = BootStageDetector::new();
    let events = detector.feed(b"U-Boot 2024.01 (Jan 01 2024 - 00:00:00)\n");
    assert_eq!(get_stage_name(&events), Some("uboot"));
}

#[test]
fn test_autoboot_detection() {
    let mut detector = BootStageDetector::new();
    let events = detector.feed(b"Hit any key to stop autoboot:  5\n");
    assert!(has_event(&events, "Autoboot"));
}

#[test]
fn test_autoboot_alternate_format() {
    let mut detector = BootStageDetector::new();
    let events = detector.feed(b"Hit key to stop autoboot\n");
    assert!(has_event(&events, "Autoboot"));
}

#[test]
fn test_linux_version_detection() {
    let mut detector = BootStageDetector::new();
    let events = detector.feed(b"Linux version 6.1.0 (gcc 12.2.0)\n");
    assert_eq!(get_stage_name(&events), Some("kernel"));
}

#[test]
fn test_login_prompt_detection() {
    let mut detector = BootStageDetector::new();
    let events = detector.feed(b"debian login:\n");
    assert!(has_event(&events, "LoginPrompt"));
}

#[test]
fn test_password_prompt_detection() {
    let mut detector = BootStageDetector::new();
    let events = detector.feed(b"Password:\n");
    assert!(has_event(&events, "PasswordPrompt"));
}

#[test]
fn test_shell_prompt_detection() {
    let mut detector = BootStageDetector::new();
    let events = detector.feed(b"root@debian:~#\n");
    assert_eq!(get_stage_name(&events), Some("shell"));
}

#[test]
fn test_crash_panic_detection() {
    let mut detector = BootStageDetector::new();
    let events = detector.feed(b"Kernel panic - not syncing: Fatal exception\n");
    assert!(has_event(&events, "Crash"));
    if let BootEvent::Crash(ctype, _) = &events[0] {
        assert_eq!(ctype, "panic");
    }
}

#[test]
fn test_crash_bug_detection() {
    let mut detector = BootStageDetector::new();
    let events = detector.feed(b"BUG: unable to handle page fault\n");
    assert!(has_event(&events, "Crash"));
}

#[test]
fn test_crash_oops_detection() {
    let mut detector = BootStageDetector::new();
    let events = detector.feed(b"Oops: 00000000 [#1] SMP\n");
    assert!(has_event(&events, "Crash"));
}

#[test]
fn test_crash_throttle() {
    let mut detector = BootStageDetector::new();
    let events1 = detector.feed(b"Kernel panic - not syncing\n");
    assert!(has_event(&events1, "Crash"));
    let events2 = detector.feed(b"Kernel panic - not syncing\n");
    assert!(!has_event(&events2, "Crash"));
}

#[test]
fn test_spl_dedup() {
    let mut detector = BootStageDetector::new();
    let events1 = detector.feed(b"U-Boot SPL 2024.01\n");
    assert!(has_event(&events1, "BootStart"));
    let events2 = detector.feed(b"U-Boot SPL 2024.01\n");
    assert!(!has_event(&events2, "BootStart"));
}

#[test]
fn test_reset_cycle() {
    let mut detector = BootStageDetector::new();
    detector.feed(b"U-Boot SPL 2024.01\n");
    detector.reset_cycle();
    let events = detector.feed(b"U-Boot SPL 2024.01\n");
    assert!(has_event(&events, "BootStart"));
}

#[test]
fn test_login_once() {
    let mut detector = BootStageDetector::new();
    let events1 = detector.feed(b"login:\n");
    assert!(has_event(&events1, "LoginPrompt"));
    let events2 = detector.feed(b"login:\n");
    assert!(!has_event(&events2, "LoginPrompt"));
}

#[test]
fn test_multiline_feed() {
    let mut detector = BootStageDetector::new();
    let data = b"line 1\nline 2\nU-Boot SPL 2024.01\nline 3\n";
    let events = detector.feed(data);
    assert!(has_event(&events, "BootStart"));
}

#[test]
fn test_chunked_feed() {
    let mut detector = BootStageDetector::new();
    detector.feed(b"U-Boot ");
    detector.feed(b"SPL ");
    let events = detector.feed(b"2024.01\n");
    assert!(has_event(&events, "BootStart"));
}

#[test]
fn test_empty_feed() {
    let mut detector = BootStageDetector::new();
    let events = detector.feed(b"");
    assert!(events.is_empty());
}

#[test]
fn test_no_newline_buffer() {
    let mut detector = BootStageDetector::new();
    let events = detector.feed(b"partial line without newline");
    assert!(events.is_empty());
}

#[test]
fn test_watcher_add_remove() {
    let mut detector = BootStageDetector::new();
    detector.add_watcher("test.*pattern", 1);
    detector.remove_watcher_by_pattern("test.*pattern");
    let _events = detector.feed(b"test_pattern_line\n");
    assert!(detector.take_matches().is_empty());
}

#[test]
fn test_watcher_matches() {
    let mut detector = BootStageDetector::new();
    detector.add_watcher("custom.*marker", 1);
    detector.feed(b"custom_marker_line\n");
    let received = detector.take_matches();
    assert_eq!(received.len(), 1);
    assert_eq!(received[0].sender, 1);
    assert!(received[0].matched.line.contains("custom_marker_line"));
    assert_eq!(received[0].matched.pattern_index, 0);
}

#[test]
fn test_watcher_multi_reports_index() {
    let mut detector = BootStageDetector::new();
    let patterns: Vec<String> =
        ["never_matches_xyz", "login:", "panic"].iter().map(|s| s.to_string()).collect();
    let registered = detector.add_watcher_multi(&patterns, 7);
    assert_eq!(registered, vec![0, 1, 2]);
    detector.feed(b"some login: prompt\n");
    let received = detector.take_matches();
    assert_eq!(received[0].matched.pattern_index, 1);
    assert!(received[0].matched.line.contains("login:"));
}

#[test]
fn test_watcher_group_cleanup() {
    let mut detector = BootStageDetector::new();
    let patterns: Vec<String> = ["aaa", "bbb"].iter().map(|s| s.to_string()).collect();
    detector.add_watcher_multi(&patterns, 3);
    detector.remove_watcher_group(3);
    detector.feed(b"aaa\nbbb\n");
    assert!(
        detector.take_matches().is_empty(),
        "group cleanup should remove all watchers sharing the sender"
    );
}

#[test]
fn test_line_split_cr() {
    let mut detector = BootStageDetector::new();
    detector.add_watcher("^line2$", 1);
    let _events = detector.feed(b"line1\r\nline2\r\n");
    assert_eq!(detector.take_matches().len(), 1);
}

#[test]
fn test_boot_sequence() {
    let mut detector = BootStageDetector::new();
    let boot_log = b"\
U-Boot SPL 2024.01\r\n\
DDR Version 1.08\r\n\
BL31: v2.10.0\r\n\
U-Boot 2024.01\r\n\
Hit any key to stop autoboot:  5\r\n\
Starting kernel ...\r\n\
Linux version 6.1.0\r\n\
login:\r\n\
root@debian:~#\r\n\
";
    let events = detector.feed(boot_log);
    assert!(has_event(&events, "BootStart"));
    assert!(has_event(&events, "Autoboot"));
    assert!(has_event(&events, "LoginPrompt"));
    assert!(events.iter().any(|e| matches!(e, BootEvent::Stage(s) if s == "shell")));
}

#[test]
fn a_crash_is_reported_again_after_a_pause() {
    let mut detector = BootStageDetector::new();
    let panic = b"Kernel panic - not syncing\n";
    assert!(has_event(&detector.feed_at(panic, 10 * SECOND), "Crash"));
    assert!(!has_event(&detector.feed_at(panic, 11 * SECOND), "Crash"));
    assert!(has_event(&detector.feed_at(panic, 13 * SECOND), "Crash"));
}

#[test]
fn an_unfinished_line_can_be_flushed() {
    let mut detector = BootStageDetector::new();
    assert!(detector.feed_at(b"debian login: ", 0).is_empty());
    assert!(has_event(&detector.flush_line_buf_at(0), "LoginPrompt"));
}

#[test]
fn the_login_prompt_can_be_configured() {
    let mut detector = BootStageDetector::new();
    detector.set_login_regex("^who are you\\?$");
    assert!(has_event(&detector.feed(b"who are you?\n"), "LoginPrompt"));
    let mut other = BootStageDetector::new();
    other.set_login_regex("(");
    assert!(has_event(&other.feed(b"debian login:\n"), "LoginPrompt"));
}

#[test]
fn a_group_of_watchers_fires_once() {
    let mut detector = BootStageDetector::new();
    let patterns: Vec<String> = ["aaa", "bbb"].iter().map(|s| s.to_string()).collect();
    detector.add_watcher_multi(&patterns, 3);
    detector.feed(b"aaa\nbbb\n");
    let received = detector.take_matches();
    assert_eq!(received.len(), 1);
    assert_eq!(received[0].matched.line, "aaa");
}

#[test]
fn stages_are_applied_in_order() {
    let fresh = CycleFlags { boot_detected: false, login_sent: false, password_sent: false };
    let (flags, events) = apply_stages(fresh, &[true; STAGE_COUNT]);
    assert!(flags.boot_detected && flags.login_sent);
    assert!(has_event(&events, "BootStart"));
    let (again, events) = apply_stages(flags, &[true; STAGE_COUNT]);
    assert!(again.boot_detected);
    assert!(!has_event(&events, "BootStart"));
    assert!(!has_event(&events, "LoginPrompt"));
    for i in 0..STAGE_COUNT {
        let stage = boot_stage(i);
        assert!(!stage.name.is_empty());
        let (_, event) = handle_stage(fresh, i);
        match stage.action {
            StageAction::RotateLog => assert!(matches!(event, Some(BootEvent::BootStart))),
            StageAction::SendCtrlC => assert!(matches!(event, Some(BootEvent::Autoboot))),
            StageAction::SendLogin => assert!(matches!(event, Some(BootEvent::LoginPrompt))),
            StageAction::SendPassword => {
                assert!(matches!(event, Some(BootEvent::PasswordPrompt)))
            }
            StageAction::Nothing => assert!(matches!(event, Some(BootEvent::Stage(_)))),
        }
    }
    for i in 0..CRASH_COUNT {
        assert!(!crash_stage(i).0.is_empty());
    }
}

#[test]
fn learned_stages_become_events() {
    let fresh = CycleFlags { boot_detected: false, login_sent: false, password_sent: false };
    let (_, events) = apply_learned(fresh, "kernel".to_string());
    assert_eq!(get_stage_name(&events), Some("kernel"));
}

const REFERENCE: &str = "\
DDR Version 1.08 20230101
U-Boot SPL 2024.01 (Jan 01 2024)
U-Boot 2024.01 (Jan 01 2024 - 00:00:00)
Starting kernel ...
[    0.000000] Linux version 6.1.0 (gcc 12.2.0)
[    5.000000] systemd[1]: Reached target Multi-User System.
debian login:
root@debian:~#
one more line
and another
boot_completed
";

#[test]
fn a_reference_log_teaches_the_stages() {
    let mut detector = BootStageDetector::new();
    assert!(detector.learner().is_none());
    assert!(detector.load_reference(REFERENCE).is_ok());
    assert!(detector.learner().is_some());
    let mut learner = match StageLearner::from_reference_text(REFERENCE) {
        Ok(l) => l,
        Err(e) => panic!("{}", e),
    };
    assert_eq!(learner.reference_text(), REFERENCE);
    assert!(!learner.export_fingerprints().is_empty());
    let anchor = learner.fingerprints[0].anchor.clone();
    let stage = learner.fingerprints[0].stage.clone();
    assert_eq!(learner.classify_line(&anchor), Some(stage));
    learner.reset();
    assert_eq!(learner.classify_line("zzzzzzzzzzzzzzzz"), None);
    assert!(StageLearner::from_reference_text("").is_err());
}

#[test]
fn configured_thresholds_decide() {
    let anchor = "U-Boot SPL board init";
    let mut usual = match StageLearner::with_thresholds(REFERENCE, 450_000, 500_000) {
        Ok(l) => l,
        Err(e) => panic!("{}", e),
    };
    let mut strict = match StageLearner::with_thresholds(REFERENCE, 1_000_001, 1_000_001) {
        Ok(l) => l,
        Err(e) => panic!("{}", e),
    };
    let line = usual.fingerprints[0].anchor.clone();
    assert!(usual.classify_line(&line).is_some());
    assert_eq!(strict.classify_line(&line), None);
    assert_eq!(strict.classify_line(anchor), None);
    assert!(usual.comparable(REFERENCE));
    assert!(!usual.comparable("short"));
    let mut detector = BootStageDetector::new();
    assert_eq!(
        detector.load_reference_with("one line", 450_000, 500_000),
        Err("Too few lines for learning".to_string())
    );
}

#[test]
fn lines_that_no_stage_claims_are_handed_out() {
    let strange = b"qqqq wwww zzzz 1234\n";
    let mut detector = BootStageDetector::new();
    assert!(detector.feed_at(strange, 0).is_empty());
    assert!(detector.load_reference(REFERENCE).is_ok());
    let events = detector.feed_at(b"qqqq wwww zzzz 1234\nU-Boot 2024.01 (Jan 01 2024)\n", 0);
    let lines: Vec<&Vec<String>> = events
        .iter()
        .filter_map(|e| match e {
            BootEvent::Unclassified(l) => Some(l),
            _ => None,
        })
        .collect();
    assert_eq!(lines, vec![&vec!["qqqq wwww zzzz 1234".to_string()]]);
    assert!(events.iter().any(|e| matches!(e, BootEvent::Stage(s) if s == "uboot")));
}

#[test]
fn any_numbers_can_be_alike() {
    assert_eq!(jaccard_similarity(&[1, u64::MAX, 1], &[u64::MAX, 7]), (1, 3));
    assert_eq!(jaccard_similarity(&[], &[1]), (0, 1));
}
