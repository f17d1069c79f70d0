use debug_console::boot_detector::BootEvent;
use debug_console::config::{Config, ConfigFormat};
use debug_console::config_map::ConfigMap;
use debug_console::connection_learner::LearnError;
use debug_console::engine_tools::{
    failed_learning, reboot_log, reference_lines, BootCapture, ButtonAction,
    CaptureNext, PatternWait, PowerStep, WaitNext,
};
use debug_console::log_manager::LogFileInfo;
use debug_console::power_control::Button;
use debug_console::relay_manager::RelayStep;
use debug_console::serial_engine::{
    is_boot_complete, is_up_stage, state_of_stage, strip_android_klog, strip_ser2net_banner,
    EngineAction, LoopStep, ProbeRead, SerialEngine, Times,
};
use debug_console::state_manager::TargetState;

const SECOND: u64 = 1_000_000_000;

fn engine(pairs: &[(&str, &str)]) -> SerialEngine {
    let mut values = ConfigMap::new();
    let base = [
        ("DEV_HOST_IP", "127.0.0.1"),
        ("SERIAL_PORT", "59999"),
        ("RELAY_PORT", "0"),
        ("RESET_CHANNEL", "0"),
        ("MASKROM_CHANNEL", "0"),
        ("HANG_TIMEOUT", "60"),
        ("HANG_HYSTERESIS", "3"),
        ("MAX_ARCHIVED_LOGS", "10"),
        ("MAX_LOG_FILE_SIZE", "100"),
        ("DUT_DIR", ".dut-serial"),
        ("LOCK_DIR", "/tmp/locks"),
        ("LOGIN_USER", "root"),
        ("LOGIN_PASS", ""),
    ];
    for (k, v) in base.iter().chain(pairs.iter()) {
        values.insert(k.to_string(), v.to_string());
    }
    let config = Config {
        values,
        config_path: None,
        project_dir: Some("/p".to_string()),
        format: ConfigFormat::Absent,
    };
    SerialEngine::new(config, "/cwd", "/dev/shm/status-", "/p")
}

fn at(t: u64) -> Times {
    Times { state: t, detector: t, commands: t }
}

fn connected(pairs: &[(&str, &str)]) -> SerialEngine {
    let mut e = engine(pairs);
    e.enable_commands();
    e.console.connect(true);
    e.on_connect(true);
    e.started();
    assert_eq!(e.console.drain_writes(), vec![b"stty -echo\n".to_vec()]);
    e
}

#[test]
fn an_engine_starts_stopped() {
    let e = engine(&[]);
    assert!(!e.console.is_open());
    assert!(!e.running);
    assert_eq!(e.state.current(), TargetState::Stopped);
    let s = e.get_state_at(5 * SECOND);
    assert_eq!(s.state, "");
    assert_eq!(s.boot_number, 0);
    assert_eq!(s.log_path, "");
    assert!(!s.relay_configured);
    assert!(s.login_configured);
    assert_eq!(e.read_loop_iter(false), LoopStep::Idle);
    assert_eq!(e.poll_range(Some(10)), None);
}

#[test]
fn starting_checks_the_configuration() {
    let e = engine(&[("DEV_HOST_IP", ""), ("SERIAL_PORT", "0")]);
    match e.start("/cwd") {
        Err(m) => assert_eq!(
            m,
            "Config errors: dev_host.ip not set; serial.port not set. Fix .target.toml."
        ),
        Ok(_) => panic!("refused"),
    }
    let e = engine(&[("DUT_ALIAS", "b")]);
    match e.start("/cwd") {
        Ok(p) => {
            assert_eq!(p.alias_check.unwrap().path, "/dev/serial/by-alias/b");
            assert_eq!(p.log_dir, "/p/.dut-serial/b/logs");
        }
        Err(m) => panic!("{}", m),
    }
    assert_eq!(
        e.in_use_error(7),
        "Target 127.0.0.1:59999 is already in use by PID 7."
    );
    assert_eq!(e.claim_error(7), "Lock still held by PID 7");
}

#[test]
fn output_drives_the_state() {
    let mut e = connected(&[]);
    e.on_data_at(b"U-Boot SPL 2024.01\nnext\n", at(SECOND));
    assert_eq!(e.state.current(), TargetState::Booting);
    let actions = e.on_data_at(b"\nKernel panic - not syncing: x\nrest\n", at(2 * SECOND));
    assert!(actions.iter().any(|a| matches!(a, EngineAction::AppendLog { .. })));
    assert_eq!(e.state.current(), TargetState::Crashed);
}

#[test]
fn a_shutdown_message_turns_the_target_off() {
    let mut e = connected(&[]);
    e.state.transition(TargetState::Active);
    e.on_data_at(b"reboot: Power down\n", at(2 * SECOND));
    assert_eq!(e.state.current(), TargetState::DutOff);
    // Another shutdown message leaves it off, any other output wakes it up.
    e.on_data_at(b"System halted\n", at(3 * SECOND));
    assert_eq!(e.state.current(), TargetState::DutOff);
    e.on_data_at(b"hello\n", at(4 * SECOND));
    assert_eq!(e.state.current(), TargetState::Active);
}

#[test]
fn lines_that_no_stage_claims_are_kept_for_learning() {
    let mut e = connected(&[]);
    let reference = "U-Boot SPL 2023.01\nDDR Version 1.2\nU-Boot 2023.01 (Jan 01 2023)\n\
        Hit any key to stop autoboot: 0\nStarting kernel ...\n\
        [    0.000000] Linux version 6.1.0\ndebian login:\nroot@debian:~#\nmore\nand more\n";
    assert!(e.detector.load_reference(reference).is_ok());
    let actions = e.on_data_at(b"qqqq wwww zzzz 1234\n", at(SECOND));
    assert!(actions.iter().any(
        |a| matches!(a, EngineAction::AppendUnclassified(l) if *l == vec!["qqqq wwww zzzz 1234".to_string()])
    ));
    // Without a line end the line is taken after a second of silence.
    e.on_data_at(b"xxxx yyyy 5678", at(2 * SECOND));
    let actions = e.watchdog_once_at(at(4 * SECOND), false);
    assert!(actions.iter().any(|a| matches!(a, EngineAction::AppendUnclassified(_))));
}

#[test]
fn a_prompt_without_a_line_end_is_seen_after_a_second() {
    let mut e = connected(&[]);
    e.state.transition(TargetState::Booting);
    e.on_data_at(b"one\nroot@b:~# ", at(SECOND));
    let actions = e.watchdog_once_at(at(SECOND + SECOND / 2), false);
    assert!(!actions.iter().any(|a| matches!(a, EngineAction::AppendLog { .. })));
    assert_eq!(e.state.current(), TargetState::Booting);
    let actions = e.watchdog_once_at(at(2 * SECOND), false);
    assert!(actions.iter().any(
        |a| matches!(a, EngineAction::AppendLog { data, .. } if data == b"root@b:~# ")
    ));
    assert_eq!(e.state.current(), TargetState::Active);
}

#[test]
fn a_login_prompt_without_a_line_end_is_answered() {
    let mut e = connected(&[]);
    e.on_data_at(b"debian login: ", at(SECOND));
    assert!(e.console.drain_writes().is_empty());
    e.watchdog_once_at(at(3 * SECOND), false);
    assert_eq!(e.console.drain_writes(), vec![b"root\n".to_vec()]);
    e.watchdog_once_at(at(5 * SECOND), false);
    assert!(e.console.drain_writes().is_empty());
}

#[test]
fn a_login_is_answered() {
    let mut e = connected(&[]);
    e.handle_boot_events(vec![BootEvent::LoginPrompt]);
    assert_eq!(e.console.drain_writes(), vec![b"root\n".to_vec()]);
}

#[test]
fn a_read_loop_follows_the_line() {
    let mut e = connected(&[]);
    assert_eq!(e.read_loop_iter(false), LoopStep::Read);
    assert_eq!(e.read_loop_iter(true), LoopStep::HandOver);
    e.hand_over();
    e.resume();
    let mut e = connected(&[]);
    e.handle_read_error();
    assert_eq!(e.state.current(), TargetState::Disconnected);
    assert_eq!(e.read_loop_iter(false), LoopStep::Reconnect);
    assert_eq!(e.reconnect_delay_at(0), 1);
    e.reconnected();
    let mut e = connected(&[]);
    e.pause();
    assert_eq!(e.read_loop_iter(false), LoopStep::Idle);
}

#[test]
fn probes_tell_the_state() {
    let mut e = connected(&[]);
    let (_, again) = e.probe_initial_state(&ProbeRead::Data(b"hello\n".to_vec()), 0);
    assert!(again);
    e.probe_again(&ProbeRead::Data(Vec::new()), 0);
    assert_eq!(e.state.current(), TargetState::DutOff);
    let mut e = connected(&[]);
    assert!(!e.probe_initial_state(&ProbeRead::Failed, 0).1);
    assert_eq!(e.state.current(), TargetState::Disconnected);
    let mut e = connected(&[]);
    e.probe_initial_state(&ProbeRead::Data(b"U-Boot 2024.01\nx\n".to_vec()), 0);
    assert_eq!(e.state.current(), TargetState::UBoot);
}

#[test]
fn a_command_that_times_out_is_probed() {
    let mut e = connected(&[]);
    let (_, report) =
        e.probe_after_command_timeout(&ProbeRead::Data(Vec::new()), "x", at(SECOND));
    assert_eq!(report.state_after, "DUT-off");
    assert!(report.hint.contains("state changed to DUT-off"));
    assert_eq!(e.state.current(), TargetState::DutOff);
}

#[test]
fn buttons_need_a_channel() {
    let mut e = engine(&[]);
    assert!(matches!(e.reset_target(), Err(m) if m == "No reset control configured"));
    assert!(matches!(e.enter_maskrom(), Err(m) if m == "No reset control configured"));
    assert!(!e.can_verify());
    assert!(!e.verify_relay(&Ok(true)).success);
    let e = engine(&[("RELAY_PORT", "2001"), ("RESET_CHANNEL", "2")]);
    assert!(matches!(e.enter_maskrom(), Err(m) if m == "MASKROM control not configured"));
    assert!(e.verify_relay(&Ok(true)).verified);
    assert!(e.verify_relay(&Ok(false)).success);
    assert_eq!(e.verify_relay(&Err("x".to_string())).text, "x");
    let mut e =
        engine(&[("RELAY_PORT", "2001"), ("RESET_CHANNEL", "2"), ("MASKROM_CHANNEL", "1")]);
    assert!(matches!(
        e.control_button("reset", "press", None),
        Ok((Button::Reset, ButtonAction::Press))
    ));
    assert!(matches!(
        e.control_button("reset", "pulse", Some(70)),
        Ok((Button::Reset, ButtonAction::Pulse(70)))
    ));
    assert!(e.control_button("reset", "hold", None).is_err());
    assert!(e.control_button("power", "press", None).is_err());
    match e.enter_maskrom() {
        Ok(steps) => {
            assert_eq!(steps[0], PowerStep::Press(Button::Maskrom));
            assert_eq!(steps[6], PowerStep::Release(Button::Maskrom));
        }
        Err(m) => panic!("{}", m),
    }
    assert!(e.reset_target().is_ok());
    assert_eq!(e.state.current(), TargetState::Booting);
    assert!(e.reset_error("x").contains("x"));
    assert!(e.maskrom_error("x").contains("x"));
}

#[test]
fn power_is_cycled_by_the_power_channel() {
    let e = engine(&[("RELAY_PORT", "2001"), ("POWER_CHANNEL", "3")]);
    let steps = e.power_cycle_target().unwrap();
    assert!(steps.contains(&RelayStep::Wait(3000)));
    assert!(engine(&[]).power_cycle_target().is_none());
}

#[test]
fn commands_go_through_the_queue() {
    let mut e = connected(&[]);
    let id = e.queue_command("ls", SECOND / 10);
    assert_eq!(e.commands.take_writes().len(), 1);
    e.commands.check_timeouts_at(e.commands.now() + SECOND);
    let results = e.commands.take_results();
    assert_eq!(results[0].id, id);
    assert!(results[0].result.timed_out);
    e.drain_counts();
    assert_eq!(e.send_raw("abc"), 3);
    e.send_uboot_command("help");
    assert_eq!(e.console.drain_writes(), vec![b"abc".to_vec(), b"help\n".to_vec()]);
    assert_eq!(e.flood_one(), Some(0x03));
    assert_eq!(e.pre_burst(), Some(vec![3, 3, 3, 3]));
}

#[test]
fn logs_are_polled() {
    let mut e = engine(&[]);
    e.logs.open_current(None, "t", "now");
    assert_eq!(e.poll_range(Some(10)), Some((0, 10)));
    assert_eq!(e.poll_logs(10, b"line 1\nline 2\n").len(), 2);
    assert_eq!(e.poll_range(Some(10)), None);
    assert_eq!(e.poll_range(Some(17)), Some((10, 7)));
    assert_eq!(e.poll_logs(17, b"\xffx\n"), vec!["\u{fffd}x".to_string()]);
    assert_eq!(e.logs.boot_number(), 1);
    assert!(e.rotate_log(Some("1"), "t").is_none());
    assert!(e.unclassified_path().ends_with("unclassified.log"));
}

#[test]
fn silence_is_watched() {
    let mut e = engine(&[]);
    assert!(e.watchdog_once_at(at(SECOND), false).is_empty());
    assert!(e.recent_output().is_none());
    e.on_silence_at(SECOND);
}

#[test]
fn banners_are_removed() {
    let mut partial = Vec::new();
    let out = strip_ser2net_banner(&mut partial, b"a\nser2net port 2000\nb\nrest");
    assert_eq!(out, b"a\nb\n");
    assert_eq!(partial, b"rest");
    assert_eq!(strip_ser2net_banner(&mut partial, b" of it\r\n"), b"rest of it\r\n");
    assert_eq!(partial, b"");
    // A banner is filtered wherever it is cut, and other lines keep their ends.
    let stream = b"x\nser2net port 2000 [\xff]\r\n\ny\xfe\r\nlast";
    for cut in 0..stream.len() {
        let mut partial = Vec::new();
        let mut out = strip_ser2net_banner(&mut partial, &stream[..cut]);
        out.extend(strip_ser2net_banner(&mut partial, &stream[cut..]));
        assert_eq!(out, b"x\n\ny\xfe\r\n");
        assert_eq!(partial, b"last");
    }
    assert_eq!(strip_android_klog(b"[ 12.345678][  T123] init\n"), b"init\n");
    assert_eq!(strip_android_klog(b"plain\n"), b"plain\n");
}

#[test]
fn stages_stand_for_states() {
    assert!(is_up_stage("shell"));
    assert!(!is_up_stage("kernel"));
    assert_eq!(state_of_stage("uboot"), TargetState::UBoot);
    assert_eq!(state_of_stage("shell"), TargetState::Active);
    assert_eq!(state_of_stage("kernel"), TargetState::Booting);
    assert!(is_boot_complete(&[BootEvent::Stage("shell".to_string())]));
    assert!(!is_boot_complete(&[BootEvent::BootStart]));
}

#[test]
fn waits_are_bounded() {
    let mut w = PatternWait::new(10 * SECOND, true);
    for _ in 0..6 {
        assert_eq!(w.next_wait(), SECOND);
        assert_eq!(w.timed_out(), WaitNext::Probe);
    }
    assert_eq!(w.timed_out(), WaitNext::GiveUp);
    assert_eq!(w.probes_sent(), 6);
    let mut w = PatternWait::new(SECOND, false);
    assert_eq!(w.next_wait(), SECOND);
    assert_eq!(w.timed_out(), WaitNext::GiveUp);
}

#[test]
fn boots_are_captured_until_silence() {
    let mut c = BootCapture::new(30 * SECOND);
    assert_eq!(c.next(0), CaptureNext::Read(500_000_000));
    assert!(c.on_read(Some(b"abc"), SECOND));
    assert!(c.on_read(Some(b""), 6 * SECOND));
    assert!(!c.on_read(Some(b""), 7 * SECOND));
    assert!(!c.on_read(None, 7 * SECOND));
    assert_eq!(c.next(30 * SECOND), CaptureNext::Done);
    assert_eq!(c.captured, b"abc");
    assert_eq!(reboot_log(b"x"), b"reboot\nx");
}

#[test]
fn references_are_extended() {
    assert_eq!(reference_lines("a\n\nb\n").len(), 2);
    let e = engine(&[]);
    assert!(e.append_reference().is_err());
    let e = engine(&[("REFERENCE_LOG", "r.log")]);
    assert!(matches!(e.append_reference(), Ok(p) if p == "r.log"));
    assert_eq!(e.learn_config().reference_log, "r.log");
    let mut e = connected(&[]);
    match e.learn_connection_hardware(Vec::new()) {
        Err(r) => assert!(matches!(r.error, Some(LearnError::NotConfigured))),
        Ok(_) => panic!("refused"),
    }
    e.learn_connection_software();
    assert_eq!(e.console.drain_writes(), vec![b"reboot\n".to_vec()]);
    assert!(!failed_learning(Vec::new(), LearnError::TooFewCycles).connected);
}

#[test]
fn test_strip_ansi_escapes_on_prompt() {
    let input = b"\x1b[?2004hroot@board:/# ls\r\n";
    let clean = strip_ansi_escapes::strip(input);
    let text = String::from_utf8_lossy(&clean);
    assert!(!text.contains("\x1b"), "ANSI escapes should be stripped, got: {:?}", text);
    assert!(text.contains("root@board"), "Prompt text should be preserved");
    assert!(text.contains("/#"), "Sigil should be preserved");
}

#[test]
fn the_engine_reports_its_files() {
    let e = engine(&[("DUT_DIR", "d/"), ("X", "1")]);
    let (archives, current) = e.list_logs(vec![
        LogFileInfo { name: "a.log".to_string(), size: 1, path: "/l/a.log".to_string(), modified: 0 },
        LogFileInfo { name: "b.log".to_string(), size: 2, path: "/l/b.log".to_string(), modified: 0 },
    ]);
    assert_eq!(archives[0].filename, "b.log");
    assert_eq!(archives[1].index, 1);
    assert_eq!(current, "");
    let report = e.get_unclassified(vec![]);
    assert_eq!(report.count, 0);
    assert_eq!(report.log_path, "d/unclassified.log");
    assert!(report.message.is_some());
    let report = e.get_unclassified(vec!["odd".to_string()]);
    assert_eq!(report.count, 1);
    assert_eq!(report.message, None);
    assert!(e.get_config().contains(&("X".to_string(), "1".to_string())));
    assert!(e.can_drain_counts());
    assert!(e.commands.can_execute());
    assert_eq!(e.commands.counts(), (0, 0));
}
