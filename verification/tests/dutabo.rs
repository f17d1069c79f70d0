use debug_console::config::{default_dut_config, DutConfig};
use debug_console::config_map::ConfigMap;
use debug_console::dutabo::{
    after_call, choose_port, clean_disconnect, client_command, describe_dut, device_appeared,
    first_word, flash_mode, flash_target, highlight_serial_prompt, is_safe_sgr, needs_loader,
    parse_client_args, port_from_url, port_of_digest, project_mcp_port, reboot_choice,
    retry_with_reboot, select_dut, serial_host, CallNext, ClientCommand, CtrlTEscape,
    EscapeAction, FlashMode, FlashRun, FlashStage, FlashStep, PlanReply, RebootChoice,
    RelayOutput, Selection, TerminalSanitizer, UsageError,
};

fn shown(line: &[u8]) -> String {
    let mut out = Vec::new();
    highlight_serial_prompt(line, &mut out);
    String::from_utf8(out).unwrap()
}

fn blank_dut() -> DutConfig {
    default_dut_config(&ConfigMap::new(), &[])
}

fn args(list: &[&str]) -> Vec<String> {
    list.iter().map(|s| s.to_string()).collect()
}

#[test]
fn test_ctrl_t_q_quits() {
    let mut esc = CtrlTEscape::new();
    assert_eq!(esc.feed(0x14), EscapeAction::Nothing);
    assert_eq!(esc.feed(b'q'), EscapeAction::Quit);
}

#[test]
fn test_ctrl_t_capital_q_quits() {
    let mut esc = CtrlTEscape::new();
    assert_eq!(esc.feed(0x14), EscapeAction::Nothing);
    assert_eq!(esc.feed(b'Q'), EscapeAction::Quit);
}

#[test]
fn test_ctrl_t_other_key_passthrough() {
    let mut esc = CtrlTEscape::new();
    assert_eq!(esc.feed(0x14), EscapeAction::Nothing);
    assert_eq!(esc.feed(b'x'), EscapeAction::Send(vec![0x14, b'x']));
}

#[test]
fn test_double_ctrl_t() {
    let mut esc = CtrlTEscape::new();
    assert_eq!(esc.feed(0x14), EscapeAction::Nothing);
    assert_eq!(esc.feed(0x14), EscapeAction::Send(vec![0x14, 0x14]));
}

#[test]
fn test_normal_keys_passthrough() {
    let mut esc = CtrlTEscape::new();
    assert_eq!(esc.feed(b'a'), EscapeAction::Send(vec![b'a']));
    assert_eq!(esc.feed(b'\n'), EscapeAction::Send(vec![b'\n']));
    assert_eq!(esc.feed(0x03), EscapeAction::Send(vec![0x03]));
}

#[test]
fn test_esc_resets_after_quit() {
    let mut esc = CtrlTEscape::new();
    assert_eq!(esc.feed(0x14), EscapeAction::Nothing);
    assert_eq!(esc.feed(b'q'), EscapeAction::Quit);
    assert!(!esc.esc);
    assert_eq!(esc.feed(b'a'), EscapeAction::Send(vec![b'a']));
}

#[test]
fn sanitizer_preserves_split_sgr_without_leaking_final_byte() {
    let mut sanitizer = TerminalSanitizer::new(true);
    let mut out = Vec::new();
    sanitizer.filter(b"2: eth0: <BROADCAST> mtu 1500 state \x1b[32", &mut out);
    sanitizer.filter(b"mUP\x1b[0", &mut out);
    sanitizer.filter(b"m group default\n    inet \x1b[32", &mut out);
    sanitizer.filter(b"m127.0.0.1\x1b[0", &mut out);
    sanitizer.filter(b"m/8 scope host lo\n", &mut out);
    let rendered = String::from_utf8(out).unwrap();
    assert_eq!(
        rendered,
        "2: eth0: <BROADCAST> mtu 1500 state \x1b[32mUP\x1b[0m group default\n    inet \x1b[32m127.0.0.1\x1b[0m/8 scope host lo\n"
    );
    assert!(!rendered.contains("state mUP"));
    assert!(!rendered.contains("inet m127"));
}

#[test]
fn sanitizer_strips_non_color_control_sequences() {
    let mut sanitizer = TerminalSanitizer::new(true);
    let mut out = Vec::new();
    sanitizer.filter(b"a\x1b[2Jb\x1b]0;title\x07c", &mut out);
    assert_eq!(String::from_utf8(out).unwrap(), "abc");
}

#[test]
fn sanitizer_preserves_readline_redraw_sequences() {
    let mut sanitizer = TerminalSanitizer::new(true);
    let mut out = Vec::new();
    sanitizer.filter(b"abc\x1b[D\x1b[Kd\x1b[P", &mut out);
    assert_eq!(String::from_utf8(out).unwrap(), "abc\x1b[D\x1b[Kd\x1b[P");
}

#[test]
fn dutabo_prompt_highlight_colors_user_dir_and_sigil() {
    let rendered = shown(b"root@myd-lt527:/# ip -c a\r\n");
    assert!(rendered.contains("\x1b[1;32mroot@myd-lt527\x1b[0m:"));
    assert!(rendered.contains("\x1b[1;34m/\x1b[0m"));
    assert!(rendered.contains("\x1b[1;37m# \x1b[0mip -c a"));
}

#[test]
fn prompt_highlight_handles_root_without_host() {
    let rendered = shown(b"root:/# ls\r\n");
    assert!(rendered.contains("\x1b[1;32mroot\x1b[0m:"));
    assert!(rendered.contains("\x1b[1;34m/\x1b[0m"));
    assert!(rendered.contains("\x1b[1;37m# \x1b[0mls"));
}

#[test]
fn dutabo_prompt_highlight_handles_bracket_prompt() {
    let rendered = shown(b"[root@myd-lt527 ~]# pwd\r\n");
    assert!(rendered.contains("[\x1b[1;32mroot@myd-lt527\x1b[0m "));
    assert!(rendered.contains("\x1b[1;34m~\x1b[0m]"));
    assert!(rendered.contains("\x1b[1;37m# \x1b[0mpwd"));
}

#[test]
fn prompt_highlight_handles_user_shell_prompt() {
    let rendered = shown(b"ubuntu@board:~/work tree$ git status\r\n");
    assert!(rendered.contains("\x1b[1;32mubuntu@board\x1b[0m:"));
    assert!(rendered.contains("\x1b[1;34m~/work tree\x1b[0m"));
    assert!(rendered.contains("\x1b[1;37m$ \x1b[0mgit status"));
}

#[test]
fn prompt_highlight_handles_bracket_user_without_host() {
    let rendered = shown(b"[root /var/log]# tail messages\r\n");
    assert!(rendered.contains("[\x1b[1;32mroot\x1b[0m "));
    assert!(rendered.contains("\x1b[1;34m/var/log\x1b[0m]"));
    assert!(rendered.contains("\x1b[1;37m# \x1b[0mtail messages"));
}

#[test]
fn dutabo_prompt_highlight_does_not_color_non_prompt_lines() {
    assert_eq!(shown(b"cat: /tmp# not a prompt\r\n"), "cat: /tmp# not a prompt\r\n");
}

#[test]
fn sanitizer_does_not_care_where_output_is_cut() {
    let data = b"x\x1b[1;32my\x1b[0m\x1b(Bz\x1b[2J\x1b]0;t\x07w\x1b[3C";
    let mut whole = Vec::new();
    TerminalSanitizer::new(true).filter(data, &mut whole);
    for cut in 0..data.len() {
        let mut s = TerminalSanitizer::new(true);
        let mut out = Vec::new();
        s.filter(&data[..cut], &mut out);
        s.filter(&data[cut..], &mut out);
        assert_eq!(out, whole);
    }
    assert_eq!(whole, b"x\x1b[1;32my\x1b[0mzw\x1b[3C");
}

#[test]
fn sanitizer_drops_colours_where_they_are_not_allowed() {
    let mut out = Vec::new();
    TerminalSanitizer::new(false).filter(b"\x1b[31mred\x1b[0m\x1b[K", &mut out);
    assert_eq!(out, b"red\x1b[K");
    assert!(is_safe_sgr(b"\x1b[1;31m"));
    assert!(!is_safe_sgr(b"\x1b[?1m"));
    assert!(!is_safe_sgr(b"abc"));
}

#[test]
fn the_relay_starts_on_a_line_of_its_own() {
    let mut r = RelayOutput::new(false, true);
    assert_eq!(r.show(b"\x1b[2J"), b"");
    assert_eq!(r.show(b"abc"), b"\r\nabc");
    assert_eq!(r.show(b"def"), b"def");
    let mut r = RelayOutput::new(false, true);
    assert_eq!(r.show(b"\nabc"), b"\nabc");
    let mut r = RelayOutput::new(true, false);
    assert_eq!(r.show(b"root:/# "), b"\x1b[1;32mroot\x1b[0m:\x1b[1;34m/\x1b[0m\x1b[1;37m# \x1b[0m");
}

#[test]
fn arguments_are_read() {
    let a = parse_client_args(&args(&["uf", "img", "--dut", "b", "--mcp-port", "3050"]), None);
    assert_eq!(a.command, Some("uf".to_string()));
    assert_eq!(a.positional, args(&["img"]));
    assert_eq!(a.dut_alias, Some("b".to_string()));
    assert_eq!(a.mcp_port, 3050);
    assert!(a.mcp_port_explicit);
    let a = parse_client_args(&args(&["--mcp-port", "none", "list", "--dut"]), Some("4000"));
    assert_eq!(a.mcp_port, 3000);
    assert_eq!(a.positional, args(&["--dut"]));
    let a = parse_client_args(&args(&["state"]), Some("4000"));
    assert_eq!((a.mcp_port, a.mcp_port_explicit), (4000, false));
}

#[test]
fn commands_are_checked() {
    let parse = |l: &[&str]| client_command(&parse_client_args(&args(l), None));
    assert!(matches!(parse(&[]), Err(UsageError::NoCommand)));
    assert!(matches!(parse(&["bogus"]), Err(UsageError::UnknownCommand(c)) if c == "bogus"));
    assert!(matches!(parse(&["uf"]), Err(UsageError::NoImage(ClientCommand::Flash))));
    assert!(matches!(
        parse(&["flash-kernel"]),
        Err(UsageError::NoImage(ClientCommand::FlashKernel))
    ));
    assert!(matches!(parse(&["uf", "x.img"]), Ok(ClientCommand::Flash)));
    assert!(matches!(parse(&["serial"]), Ok(ClientCommand::Serial)));
    assert!(matches!(parse(&["maskrom"]), Ok(ClientCommand::Maskrom)));
}

#[test]
fn ports_come_from_settings_or_the_project() {
    assert_eq!(port_from_url("http://127.0.0.1:3042/mcp"), Some(3042));
    assert_eq!(port_from_url("http://127.0.0.1:99999/mcp"), None);
    assert_eq!(port_from_url("3001"), Some(3001));
    // The digest of the empty text begins with d41d8cd9.
    assert_eq!(project_mcp_port(""), 3001 + (0xd41d8cd9u64 % 99) as u16);
    assert_eq!(port_of_digest(&[0, 0, 0, 100]), 3002);
    let a = parse_client_args(&args(&["list"]), None);
    assert_eq!(choose_port(&a, Some(1), Some(2)), 1);
    assert_eq!(choose_port(&a, None, Some(2)), 2);
    assert_eq!(choose_port(&a, None, None), 3000);
    let a = parse_client_args(&args(&["list", "--mcp-port", "9"]), None);
    assert_eq!(choose_port(&a, Some(1), Some(2)), 9);
}

#[test]
fn a_dut_is_chosen_by_name_or_because_it_is_the_only_one() {
    let dut = |alias: &str| {
        let mut d = blank_dut();
        d.alias = alias.to_string();
        d
    };
    assert_eq!(select_dut(&vec![], Some("a")), Selection::NoDuts);
    assert_eq!(select_dut(&vec![dut("a")], None), Selection::Chosen(0));
    let two = vec![dut("a"), dut("b")];
    assert_eq!(select_dut(&two, None), Selection::Ambiguous);
    assert_eq!(select_dut(&two, Some("b")), Selection::Chosen(1));
    assert_eq!(select_dut(&two, Some("c")), Selection::NotFound);
}

#[test]
fn duts_are_listed() {
    let mut d = blank_dut();
    d.alias = "board".to_string();
    d.dev_host_ip = "10.0.0.1".to_string();
    d.power_ch = 3;
    let text = describe_dut(&d);
    assert!(text.starts_with("DUT: board\n  dev_host: "));
    assert!(text.contains("@10.0.0.1)\n  serial:   "));
    assert!(text.contains(", power_ch=3, power_off_ms="));
    assert!(text.ends_with("\n\n"));
    d.serial_ip = "".to_string();
    assert_eq!(serial_host(&d), "10.0.0.1");
    d.serial_ip = "10.0.0.2".to_string();
    assert_eq!(serial_host(&d), "10.0.0.2");
}

#[test]
fn rebooting_prefers_power_then_reset_then_a_command() {
    let mut d = blank_dut();
    d.power_ch = 0;
    d.reset_ch = 0;
    assert_eq!(reboot_choice(&d), RebootChoice::Software);
    assert!(retry_with_reboot(false, Some("failed"), &d));
    assert!(!retry_with_reboot(true, None, &d));
    d.reset_ch = 1;
    assert_eq!(reboot_choice(&d), RebootChoice::RelayReset);
    assert!(!retry_with_reboot(false, Some("failed"), &d));
    assert!(retry_with_reboot(false, Some("No relay configured"), &d));
    d.power_ch = 2;
    assert_eq!(reboot_choice(&d), RebootChoice::PowerCycle);
}

#[test]
fn a_server_is_started_once() {
    assert_eq!(after_call(0, false, false), CallNext::StartServer);
    assert_eq!(after_call(1, false, false), CallNext::GiveUp);
    assert_eq!(after_call(0, true, true), CallNext::Replied);
    assert_eq!(after_call(0, true, false), CallNext::GiveUp);
}

#[test]
fn clean_disconnects_are_quiet() {
    assert!(clean_disconnect("Connection RESET by peer"));
    assert!(clean_disconnect("WebSocket protocol error: Connection reset without closing handshake"));
    assert!(clean_disconnect("Broken pipe (os error 32)"));
    assert!(clean_disconnect("Connection closed normally"));
    assert!(!clean_disconnect("Permission denied"));
}

#[test]
fn flashing_goes_step_by_step() {
    let (mut run, step) = FlashRun::new();
    assert_eq!(step, FlashStep::Upload);
    assert_eq!(run.uploaded(false), FlashStep::CopyFailed);
    assert_eq!(run.uploaded(true), FlashStep::Checksum);
    assert_eq!(run.checked("aa  x\n", "bb  y\n"), FlashStep::Mismatch);
    assert_eq!(run.checked("", ""), FlashStep::Mismatch);
    assert_eq!(run.checked("aa  x\n", "aa  /tmp/x\n"), FlashStep::ListDevices);
    assert_eq!(run.listed("List of rockusb connected(0)", ""), FlashStep::RebootLoader);
    for _ in 0..19 {
        assert_eq!(run.listed("connected(0)", ""), FlashStep::WaitForDevice);
    }
    assert_eq!(run.listed("connected(0)", ""), FlashStep::ListDevices);
    assert_eq!(run.listed("connected(0)", ""), FlashStep::NoDevice);
    assert_eq!(run.stage, FlashStage::Finished);
    let (mut run, _) = FlashRun::new();
    assert_eq!(run.listed("DevNo=1 Mode=Loader", ""), FlashStep::ListDevices);
    assert_eq!(run.listed("DevNo=1 Mode=Loader", ""), FlashStep::WriteImage);
}

#[test]
fn flash_modes_depend_on_the_device_and_the_loader() {
    assert_eq!(flash_mode("Mode=Maskrom", "l.bin"), FlashMode::LoaderThenImage);
    assert_eq!(flash_mode("Mode=Maskrom", ""), FlashMode::NoDevice);
    assert_eq!(flash_mode("Mode=Loader", "l.bin"), FlashMode::Image);
    assert!(needs_loader("No found rockusb"));
    assert!(!device_appeared("short"));
    assert!(device_appeared("DevNo=1 Vid=0x2207"));
    assert_eq!(first_word("  abc def"), "abc");
}

#[test]
fn the_plan_fills_in_defaults() {
    let mut plan = PlanReply {
        dev_host: Some("h".to_string()),
        dev_user: Some("u".to_string()),
        remote_path: Some("/tmp/i".to_string()),
        tool: Some("t".to_string()),
        selected_flash_cmd: None,
        kernel_image_cmd: Some("DI k".to_string()),
        full_image_cmd: Some("UF f".to_string()),
        loader_bin: None,
        list_devices_cmd: None,
        loader_cmd: Some("UL l".to_string()),
    };
    let t = flash_target(&plan, true).unwrap();
    assert_eq!(t.login, "u@h");
    assert_eq!(t.list_cmd, "t LD");
    assert_eq!(t.flash_cmd, "t DI k");
    assert_eq!(t.loader_cmd, "t UL l");
    assert_eq!(flash_target(&plan, false).unwrap().flash_cmd, "t UF f");
    plan.selected_flash_cmd = Some("X".to_string());
    assert_eq!(flash_target(&plan, false).unwrap().flash_cmd, "t X");
    plan.dev_host = None;
    assert!(flash_target(&plan, false).is_none());
}
