use debug_console::inotify_watcher::{
    first_event, watch_kind, watch_paths, WatchKind, WatchSource,
};
use debug_console::lock_manager::{
    check_project_singleton, fnv1a_hash, lock_content, lock_holder, lock_is_nameable, lock_path,
    pid_of, process_alive, LockAttempt, LockSeen, LockStep, PidFile,
};
use debug_console::serial_sim::{
    boot_log_lines, parse_sim_args, FakeFS, Shell, SimCommand, BOOT_LOG,
};
use debug_console::task_manager::{
    new_task_id, TaskKind, TaskManager, TaskPayload, TaskProgress, TaskStatus,
};

const SECOND: u64 = 1_000_000_000;

#[test]
fn test_fnv1a_hash_deterministic() {
    let h1 = fnv1a_hash("test:1234");
    let h2 = fnv1a_hash("test:1234");
    assert_eq!(h1, h2);
    let h3 = fnv1a_hash("test:1235");
    assert_ne!(h1, h3);
}

#[test]
fn hashes_are_exact() {
    assert_eq!(fnv1a_hash(""), 0xcbf29ce484222325);
    assert_eq!(fnv1a_hash("a"), 0xaf63dc4c8601ec8c);
    assert_eq!(fnv1a_hash("foobar"), 0x85944171f73967e8);
}

#[test]
fn locks_are_named_by_their_line() {
    assert!(lock_is_nameable("10.0.0.1", "3000"));
    let path = lock_path("10.0.0.1", "3000", "/locks");
    let want = format!("/locks/{}.lock", &format!("{:x}", fnv1a_hash("10.0.0.1:3000"))[..8]);
    assert_eq!(path, want);
    assert_ne!(path, lock_path("10.0.0.2", "3000", "/locks"));
    assert_ne!(path, lock_path("10.0.0.1", "3001", "/locks"));
}

#[test]
fn locks_name_their_holder() {
    let content = lock_content(42, "10.0.0.1", "3000", "host", "2020-01-01T00:00:00");
    let lines: Vec<&str> = content.lines().collect();
    assert_eq!(lines, vec!["42", "10.0.0.1:3000", "host", "2020-01-01T00:00:00"]);
    assert_eq!(lock_holder(&content), Some(42));
    assert_eq!(lock_holder(""), None);
    assert_eq!(lock_holder("x\n1"), None);
    assert_eq!(lock_holder(" 7 \nrest"), Some(7));
}

#[test]
fn locks_are_taken_step_by_step() {
    let (mut a, step) = LockAttempt::new();
    assert_eq!(step, LockStep::Look);
    assert_eq!(a.looked(LockSeen::Absent, 1), LockStep::Create);
    assert_eq!(a.created(true), LockStep::Taken);

    let (mut a, _) = LockAttempt::new();
    assert_eq!(a.looked(LockSeen::Held(9), 1), LockStep::Conflict(9));

    let (mut a, _) = LockAttempt::new();
    assert_eq!(a.looked(LockSeen::Stale, 1), LockStep::RemoveAndCreate);
    for _ in 0..7 {
        assert_eq!(a.created(false), LockStep::Look);
        assert_eq!(a.looked(LockSeen::Absent, 1), LockStep::RemoveAndLook);
        assert_eq!(a.looked(LockSeen::Absent, 1), LockStep::Create);
    }
    assert_eq!(a.created(false), LockStep::Look);
    assert_eq!(a.looked(LockSeen::Absent, 1), LockStep::GiveUp(1));
}

#[test]
fn processes_that_may_not_be_signalled_are_alive() {
    assert!(process_alive(0, 0));
    assert!(process_alive(-1, 1));
    assert!(!process_alive(-1, 3));
}

#[test]
fn one_server_runs_for_a_project() {
    let file = |content: &str, alive: bool, command: &str| PidFile {
        content: Some(content.to_string()),
        alive,
        command: Some(command.to_string()),
    };
    let files = vec![
        PidFile { content: None, alive: true, command: None },
        file("x", true, "debug-console"),
        file("1\n", false, "debug-console"),
        file("2", true, "bash"),
        file("3", true, "debug-console-m"),
        file("4", false, ""),
    ];
    assert_eq!(check_project_singleton(&files), (Some(3), vec![2, 3]));
    assert_eq!(check_project_singleton(&vec![file("4", false, "")]), (None, vec![0]));
    assert_eq!(pid_of(" 12\n"), Some(12));
}

#[test]
fn changes_mean_something() {
    assert_eq!(watch_kind(WatchSource::Config, ""), Some(WatchKind::ConfigChanged));
    let dir = WatchSource::Directory;
    assert_eq!(watch_kind(dir, ".target.toml"), Some(WatchKind::ConfigChanged));
    assert_eq!(watch_kind(dir, "current.serial.log"), Some(WatchKind::LogAppended));
    assert_eq!(watch_kind(dir, "target-state"), Some(WatchKind::StateChanged));
    assert_eq!(watch_kind(dir, "other"), None);
    let e = first_event(&vec![(dir, "x".to_string()), (dir, "target-state".to_string())]);
    let e = e.unwrap();
    assert_eq!((e.kind, e.path.as_str()), (WatchKind::StateChanged, "target-state"));
    assert!(first_event(&vec![(dir, "x".to_string())]).is_none());
    let p = watch_paths("/p", ".dut-serial");
    assert_eq!(p.config, "/p/.target.toml");
    assert_eq!(p.dut, "/p/.dut-serial");
    assert_eq!(p.logs, "/p/.dut-serial/logs");
}

fn task(m: &mut TaskManager, alias: &str, now: u64) -> Option<String> {
    m.create_at(TaskKind::Flash, Some(alias.to_string()), "start".to_string(), now)
}

#[test]
fn a_dut_has_one_task_at_a_time() {
    let mut m = TaskManager::new();
    let a = task(&mut m, "a", 0).unwrap();
    assert_eq!(a, "task-1");
    assert_eq!(task(&mut m, "a", 0), None);
    assert_eq!(task(&mut m, "b", 0), Some("task-2".to_string()));
    m.complete(&a, "{}".to_string());
    let c = task(&mut m, "a", 0).unwrap();
    assert_eq!(c, "task-3");
    // Dropping the ended task does not free the DUT.
    m.cleanup_at(1, 10 * SECOND);
    assert!(m.get(&a).is_none());
    assert!(m.is_busy("a"));
    assert_eq!(task(&mut m, "a", 0), None);
    assert_eq!(m.list_active().len(), 2);
    assert!(m.create(TaskKind::WaitPattern, None, String::new()).is_some());
    assert!(m.create(TaskKind::WaitPattern, None, String::new()).is_some());
}

#[test]
fn tasks_report_how_they_ended() {
    let mut m = TaskManager::new();
    let a = task(&mut m, "a", 0).unwrap();
    let d = m.get(&a).unwrap();
    assert!(d.status == TaskStatus::Working && matches!(d.payload, TaskPayload::Working));
    assert_eq!(d.status_message, Some("start".to_string()));
    m.update_progress(&a, TaskProgress { stage: None, percent: Some(0), message: None });
    m.fail(&a, "broken".to_string());
    let d = m.get(&a).unwrap();
    assert!(matches!(d.payload, TaskPayload::Failed(Some(e)) if e == "broken"));
    assert!(!m.cancel(&a));
    let b = task(&mut m, "b", 0).unwrap();
    assert_eq!(m.cancel_token(&b), Some(false));
    assert!(m.cancel(&b));
    assert_eq!(m.cancel_token(&b), Some(true));
    assert!(m.get(&b).unwrap().status == TaskStatus::Cancelled);
    assert!(!m.cancel("none"));
    assert_eq!(m.cancel_token("none"), None);
    assert!(m.get("none").is_none());
    let c = task(&mut m, "c", 0).unwrap();
    m.complete(&c, "{\"ok\":1}".to_string());
    let d = m.get(&c).unwrap();
    assert!(matches!(d.payload, TaskPayload::Completed(Some(r)) if r == "{\"ok\":1}"));
    assert!(m.get_create_result(&c).is_some());
}

#[test]
fn only_old_tasks_that_ended_are_dropped() {
    let mut m = TaskManager::new();
    let a = task(&mut m, "a", 0).unwrap();
    let b = task(&mut m, "b", 0).unwrap();
    m.complete(&a, String::new());
    m.cleanup_at(10, 11 * SECOND - 1);
    assert!(m.get(&a).is_some());
    m.cleanup_at(10, 11 * SECOND);
    assert!(m.get(&a).is_none());
    assert!(m.get(&b).is_some());
    m.cleanup(0);
    assert!(m.get(&b).is_some());
}

#[test]
fn tasks_have_names() {
    let mut next = 7;
    assert_eq!(new_task_id(&mut next), "task-7");
    assert_eq!(next, 8);
    assert_eq!(TaskKind::ResetAndWait.display_name(), "reset_and_wait");
    assert_eq!(TaskKind::of_tool("serial_reset"), Some(TaskKind::ResetAndWait));
    assert_eq!(TaskKind::of_tool("serial_wait_pattern"), Some(TaskKind::WaitPattern));
    assert_eq!(TaskKind::of_tool("serial_status"), None);
    assert_eq!(TaskKind::EnterUboot.display_name(), "enter_uboot");
    assert_eq!(TaskKind::RebootUboot.display_name(), "reboot_uboot");
    assert_eq!(TaskKind::EnterMaskrom.display_name(), "enter_maskrom");
    assert_eq!(TaskKind::PowerCycle.display_name(), "power_cycle");
    assert_eq!(TaskKind::Flash.display_name(), "flash");
    assert_eq!(TaskKind::WaitPattern.display_name(), "wait_pattern");
    assert!(TaskStatus::Cancelled.is_terminal());
    assert!(!TaskStatus::InputRequired.is_terminal());
}

fn type_keys(shell: &mut Shell, keys: &[u8]) -> String {
    let mut out = Vec::new();
    for k in keys {
        out.extend(shell.key_at(*k, 3723));
    }
    String::from_utf8(out).unwrap()
}

#[test]
fn the_board_asks_for_a_login() {
    let mut shell = Shell::new("board");
    assert_eq!(shell.initial_prompt(), "board login: ");
    assert_eq!(shell.process_line("nobody"), "\r\nLogin incorrect\r\n\r\nboard login: ");
    assert_eq!(shell.process_line("root"), "\r\nPassword: \r\n\r\nroot@board:/# ");
    assert_eq!(shell.prompt(), "\r\nroot@board:/# ");
    let mut other = Shell::new("board");
    other.process_line("login tao");
    assert_eq!(other.process_line("whoami"), "\r\ntao\r\ntao@board:/# ");
}

#[test]
fn the_board_answers_commands() {
    let mut shell = Shell::new("board");
    shell.skip_login();
    let p = "\r\nroot@board:/# ";
    let mut ask = |line: &str| shell.process_line_at(line, 3723);
    assert_eq!(ask("echo a b"), format!("\r\na b{}", p));
    assert_eq!(ask("cat /etc/hostname"), format!("\r\nboard\n{}", p));
    assert_eq!(ask("cat /x"), format!("\r\ncat: /x: No such file or directory{}", p));
    assert_eq!(ask("ls /etc"), format!("\r\nhostname{}", p));
    assert_eq!(ask("ls /nowhere"), format!("\r\n{}", p));
    assert_eq!(
        ask("uptime"),
        format!("\r\n01:02:03 up 62 min, load average: 0.00, 0.00, 0.00{}", p)
    );
    assert_eq!(ask("pwd"), format!("\r\n/{}", p));
    assert_eq!(ask("uname -r"), format!("\r\n5.15.147{}", p));
    assert_eq!(ask("hostname"), format!("\r\nboard{}", p));
    assert_eq!(ask("true"), p);
    assert_eq!(ask("warmup"), p);
    assert_eq!(ask("false"), format!("\r\n{}", p));
    assert_eq!(ask("bogus x"), format!("\r\n/bin/sh: bogus: not found{}", p));
    assert_eq!(ask("   "), p);
    assert!(ask("dmesg").starts_with("\r\n[    0.000000] Booting Linux"));
    assert!(ask("dmesg-full").contains("Welcome to Embedded Linux"));
    assert_eq!(boot_log_lines().len(), BOOT_LOG.lines().count());
    assert_eq!(FakeFS::new("h").read("/etc/hostname").unwrap(), "h\n");
    assert!(FakeFS::new("h").read("/none").is_none());
}

#[test]
fn keys_are_echoed_and_edited() {
    let mut shell = Shell::new("board");
    shell.skip_login();
    assert_eq!(
        type_keys(&mut shell, b"echx\x7fo hi\r"),
        "echx\x08 \x08o hi\r\n\r\nhi\r\nroot@board:/# "
    );
    assert_eq!(type_keys(&mut shell, b"\x08"), "");
    assert_eq!(type_keys(&mut shell, b"abc\x03"), "abc^C\r\nroot@board:/# ");
    assert_eq!(type_keys(&mut shell, b"stty -echo\r"), "stty -echo\r\n\r\nroot@board:/# ");
    assert_eq!(type_keys(&mut shell, b"pwd\r"), "\r\n/\r\nroot@board:/# ");
    type_keys(&mut shell, b"stty echo\r");
    assert_eq!(type_keys(&mut shell, b"x\x7f"), "x\x08 \x08");
    assert_eq!(type_keys(&mut shell, b"\x1b"), "\x1b");
    assert_eq!(type_keys(&mut shell, b"\x04"), "\r\nlogout\r\nboard login: ");
}

#[test]
fn the_board_reads_its_arguments() {
    let args = |l: &[&str]| l.iter().map(|s| s.to_string()).collect::<Vec<String>>();
    match parse_sim_args(&args(&["-p", "2000", "--hostname", "b", "-b", "-n", "-P"]), "h") {
        SimCommand::Run(o) => {
            assert_eq!((o.port, o.hostname.as_str()), (2000, "b"));
            assert!(o.boot_log && o.no_login && o.print_port);
        }
        _ => panic!("runs"),
    }
    match parse_sim_args(&args(&["--port", "x"]), "h") {
        SimCommand::Run(o) => assert_eq!((o.port, o.hostname.as_str()), (9999, "h")),
        _ => panic!("runs"),
    }
    assert!(matches!(parse_sim_args(&args(&["--help"]), "h"), SimCommand::Help));
    assert!(matches!(
        parse_sim_args(&args(&["--x"]), "h"),
        SimCommand::Unknown(s) if s == "--x"
    ));
}
