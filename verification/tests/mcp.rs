use debug_console::config::{Config, ConfigFormat};
use debug_console::config_map::ConfigMap;
use debug_console::log_manager::ArchiveInfo;
use debug_console::mcp::{
    build_flash_plan, build_prompt_content, build_prompts,
    build_resources_list, error_response, flood_rounds, floods_without_reset, http_status,
    lost_in_pipe, parse_error, parse_server_args, plan_command, reboot_flood_rounds,
    remote_path, resource_ref, split_bind, tools_blocked, uboot_failure,
    CommandPlan, ImageType, McpServer, ResourceRef, Route, ServerCommand,
    DUT_OFF_ERROR, MCP_PROTOCOL_VERSION,
};
use debug_console::mcp_tools::{
    parse_call, prompt_like, tool_definitions, tool_index, Arg, ArgValue, LearnChoice, ToolCall,
};
use debug_console::state_manager::TargetState;

fn config(pairs: &[(&str, &str)]) -> Config {
    let mut values = ConfigMap::new();
    for (k, v) in pairs {
        values.insert(k.to_string(), v.to_string());
    }
    Config { values, config_path: None, project_dir: None, format: ConfigFormat::Absent }
}

fn introduced() -> McpServer {
    let mut s = McpServer::new();
    s.initialized = true;
    s
}

#[test]
fn test_all_tools_have_valid_schema() {
    let server = McpServer::new();
    assert!(
        server.tools.len() >= 28,
        "Expected at least 28 MCP tools, got {}",
        server.tools.len()
    );
    for tool in &server.tools {
        assert!(!tool.name.is_empty(), "Tool has empty name");
        assert!(!tool.description.is_empty(), "Tool '{}' has empty description", tool.name);
        for param in &tool.params {
            assert!(!param.name.is_empty(), "Tool '{}' has a parameter without a name", tool.name);
        }
    }
}

#[test]
fn test_essential_tools_present() {
    let server = McpServer::new();
    let names: Vec<&str> = server.tools.iter().map(|t| t.name).collect();
    let required = &[
        "serial_send_command",
        "serial_get_state",
        "serial_get_logs",
        "serial_reset",
        "serial_enter_uboot",
        "serial_enter_maskrom",
        "serial_wait_pattern",
        "serial_uboot_command",
        "serial_flash",
        "serial_flash_plan",
        "serial_get_config",
        "serial_load_reference",
        "serial_learn_connection",
    ];
    for &r in required {
        assert!(names.contains(&r), "Essential tool '{}' is missing", r);
    }
}

#[test]
fn test_prompts_include_v03_tools() {
    let prompts = build_prompts();
    let names: Vec<&str> = prompts.iter().map(|p| p.name).collect();
    assert!(names.contains(&"boot-capture"), "Should have boot-capture prompt");
    assert!(names.contains(&"crash-diagnose"), "Should have crash-diagnose prompt");
    assert!(names.contains(&"uboot-recovery"), "Should have uboot-recovery prompt");
}

#[test]
fn test_prompt_content_not_empty() {
    for name in ["boot-capture", "crash-diagnose", "uboot-recovery"] {
        let content = build_prompt_content(name);
        assert!(
            content.message.map_or(false, |m| !m.is_empty()),
            "{} prompt should have messages",
            name
        );
    }
    assert!(build_prompt_content("other").message.is_none());
}

#[test]
fn requests_are_routed() {
    let mut s = McpServer::new();
    assert!(matches!(s.handle_message("2.0", Some("initialize")), Route::Initialize));
    let mut s = introduced();
    assert!(matches!(s.handle_message("2.0", Some("ping")), Route::Ping));
    assert!(matches!(s.handle_message("2.0", Some("tools/list")), Route::ToolsList));
    assert!(matches!(s.handle_message("2.0", Some("tools/call")), Route::ToolsCall));
    assert!(matches!(s.handle_message("2.0", Some("resources/list")), Route::ResourcesList));
    assert!(matches!(s.handle_message("2.0", Some("resources/read")), Route::ResourcesRead));
    assert!(matches!(s.handle_message("2.0", Some("prompts/list")), Route::PromptsList));
    assert!(matches!(s.handle_message("2.0", Some("prompts/get")), Route::PromptsGet));
    assert_eq!(MCP_PROTOCOL_VERSION, "2024-11-05");
}

#[test]
fn requests_before_the_introduction_are_refused() {
    let mut s = McpServer::new();
    match s.handle_message("2.0", Some("tools/list")) {
        Route::Error(e) => {
            assert_eq!(e.code, -32600);
            assert!(e.message.contains("Not initialized"));
        }
        _ => panic!("refused"),
    }
    assert!(matches!(
        s.handle_message("2.0", Some("notifications/initialized")),
        Route::NoAnswer
    ));
    assert!(s.initialized);
    assert!(matches!(s.handle_message("2.0", Some("tools/list")), Route::ToolsList));
}

#[test]
fn bad_requests_are_refused() {
    let mut s = introduced();
    match s.handle_message("1.0", Some("initialize")) {
        Route::Error(e) => {
            assert_eq!(e.code, -32600);
            assert!(e.message.contains("jsonrpc must be '2.0'"));
        }
        _ => panic!("refused"),
    }
    match s.handle_message("2.0", None) {
        Route::Error(e) => {
            assert_eq!(e.code, -32600);
            assert!(e.message.contains("missing method"));
        }
        _ => panic!("refused"),
    }
    match s.handle_message("2.0", Some("unknown/method")) {
        Route::Error(e) => assert_eq!(e.code, -32601),
        _ => panic!("refused"),
    }
    let e = error_response(-32600, "test error");
    assert_eq!((e.code, e.message.as_str()), (-32600, "test error"));
    assert_eq!(parse_error("x").code, -32700);
    assert!(parse_error("x").message.contains("x"));
    assert_eq!(http_status(true), 200);
    assert_eq!(http_status(false), 202);
}

#[test]
fn entering_the_boot_loader_is_described_by_the_interrupt_character() {
    let tools = tool_definitions();
    let t = &tools[tool_index("serial_enter_uboot").unwrap()];
    assert!(t.description.contains("interrupt-character"));
    assert!(t.description.contains("UBOOT_INTERRUPT_CHAR"));
    assert!(!t.description.contains("continuous Ctrl-C flood"));
    let of = |name: &str| t.params.iter().find(|p| p.name == name).unwrap().description;
    assert!(of("flood_duration_secs").contains("interrupt-character"));
    assert!(of("flood_interval_ms").contains("interrupt bytes"));
    assert_eq!(tools.len(), 28);
    for (i, t) in tools.iter().enumerate() {
        assert_eq!(tool_index(t.name), Some(i));
    }
    assert_eq!(tool_index("unknown_tool"), None);
}

fn arg(name: &str, value: ArgValue) -> Arg {
    Arg { name: name.to_string(), value }
}

fn number(n: u64) -> ArgValue {
    ArgValue::Number { unsigned: Some(n), nanos: n * 1_000_000_000 }
}

#[test]
fn calls_are_read() {
    match parse_call(
        "serial_send_command",
        &[arg("command", ArgValue::Text("ls".to_string())), arg("timeout", number(3))],
    ) {
        Ok(ToolCall::SendCommand { command, timeout }) => {
            assert_eq!(command, "ls");
            assert_eq!(timeout, 3_000_000_000);
        }
        _ => panic!("a command"),
    }
    match parse_call("unknown_tool", &[]) {
        Err(e) => assert!(e.contains("Unknown tool")),
        Ok(_) => panic!("unknown"),
    }
    match parse_call("serial_get_logs", &[arg("lines", number(7))]) {
        Ok(ToolCall::GetLogs { limit, filter, archive }) => {
            assert_eq!((limit, filter, archive), (7, None, 0));
        }
        _ => panic!("logs"),
    }
    assert!(matches!(parse_call("serial_get_state", &[]), Ok(ToolCall::GetState)));
    assert!(matches!(
        parse_call("serial_learn_connection", &[]),
        Ok(ToolCall::LearnConnection { choice: LearnChoice::Hardware })
    ));
    assert!(matches!(
        parse_call(
            "serial_learn_connection",
            &[arg("method", ArgValue::Text("auto".to_string()))]
        ),
        Ok(ToolCall::LearnConnection { choice: LearnChoice::Auto })
    ));
    assert!(prompt_like("login:"));
}

#[test]
fn commands_are_planned_by_the_state() {
    assert!(matches!(plan_command(TargetState::DutOff, "ls"), CommandPlan::Refuse));
    assert!(matches!(plan_command(TargetState::Active, "ls"), CommandPlan::Run));
    assert!(DUT_OFF_ERROR.contains("DUT is off or unresponsive"));
    assert!(tools_blocked(TargetState::Dutabo));
    assert!(!tools_blocked(TargetState::Active));
    assert!(lost_in_pipe("", None, "dmesg | tail"));
    assert!(!lost_in_pipe("x", None, "dmesg | tail"));
    assert!(!lost_in_pipe("", Some(0), "dmesg | tail"));
    assert!(!lost_in_pipe("", None, "dmesg"));
}

#[test]
fn the_server_reads_its_arguments() {
    let args = |l: &[&str]| l.iter().map(|s| s.to_string()).collect::<Vec<String>>();
    assert!(matches!(parse_server_args(&args(&["-h"])), ServerCommand::Help));
    assert!(matches!(parse_server_args(&args(&["--version"])), ServerCommand::Version));
    assert!(matches!(parse_server_args(&args(&["--x"])), ServerCommand::Unknown(s) if s == "--x"));
    match parse_server_args(&args(&["-v", "--http", "127.0.0.1:9", "--log-to-stderr"])) {
        ServerCommand::Run(o) => {
            assert!(o.verbose && o.log_to_stderr);
            assert_eq!(o.http, Some("127.0.0.1:9".to_string()));
        }
        _ => panic!("runs"),
    }
    match parse_server_args(&args(&["--http"])) {
        ServerCommand::Run(o) => assert_eq!(o.http, Some("0.0.0.0:3000".to_string())),
        _ => panic!("runs"),
    }
    assert_eq!(split_bind("127.0.0.1:81"), ("127.0.0.1".to_string(), 81));
    assert_eq!(split_bind("h:x"), ("h".to_string(), 3000));
    assert_eq!(split_bind("plain"), ("0.0.0.0".to_string(), 3000));
}

#[test]
fn attempts_are_counted() {
    assert_eq!(uboot_failure(3), "Timed out waiting for U-Boot prompt after 3 attempts");
    assert_eq!(uboot_failure(0), " after 0 attempts");
    assert!(floods_without_reset("No reset control configured"));
    assert!(!floods_without_reset("other"));
    assert_eq!(flood_rounds(50_000_000, 10), 5);
    assert_eq!(reboot_flood_rounds(100), 150);
}

#[test]
fn logs_are_resources() {
    let archives = vec![ArchiveInfo {
        index: 0,
        filename: "boot-001_x.log".to_string(),
        size_bytes: 10,
        path: "/p/boot-001_x.log".to_string(),
    }];
    let list = build_resources_list(&archives);
    assert!(list.iter().any(|r| resource_ref(&r.uri) == ResourceRef::Log(0)));
    assert!(list.iter().any(|r| resource_ref(&r.uri) == ResourceRef::State));
    assert_eq!(resource_ref("log://boot/12"), ResourceRef::Log(12));
    assert_eq!(resource_ref("log://boot/x"), ResourceRef::Missing);
    assert_eq!(resource_ref("other"), ResourceRef::Missing);
}

#[test]
fn images_are_copied_checked_and_written() {
    let cfg = config(&[
        ("DEV_HOST_IP", "10.0.0.1"),
        ("DEV_HOST_USER", "u"),
        ("FLASH_TOOL", "t"),
        ("FLASH_FULL_IMAGE_CMD", "UF {image}"),
        ("FLASH_KERNEL_IMAGE_CMD", "WL {image} # {image}"),
        ("FLASH_LOADER_CMD", "DB loader"),
    ]);
    let plan = build_flash_plan(&cfg, "/i/x.img", "x.img", "full").unwrap();
    assert_eq!(plan.remote_path, "/tmp/x.img");
    assert_eq!(plan.upload_dir, "/tmp");
    assert_eq!(plan.image_type.as_str(), "full");
    assert_eq!(plan.full_image_cmd, "UF /tmp/x.img");
    assert_eq!(plan.kernel_image_cmd, "WL /tmp/x.img # /tmp/x.img");
    assert_eq!(plan.selected_flash_cmd, "UF /tmp/x.img");
    assert_eq!((plan.loader_bin.as_str(), plan.loader_cmd.as_str()), ("", ""));
    assert_eq!(plan.list_devices_cmd, "LD");
    assert_eq!(
        plan.steps,
        vec![
            "scp /i/x.img u@10.0.0.1:/tmp/x.img".to_string(),
            "ssh u@10.0.0.1 'sha256sum /tmp/x.img'".to_string(),
            "ssh u@10.0.0.1 't UF /tmp/x.img'".to_string(),
        ]
    );
    let kernel = build_flash_plan(&cfg, "/i/x.img", "x.img", "kernel").unwrap();
    assert_eq!(kernel.image_type, ImageType::Kernel);
    assert_eq!(kernel.selected_flash_cmd, "WL /tmp/x.img # /tmp/x.img");
    assert!(build_flash_plan(&config(&[]), "/i/x.img", "x.img", "full").is_none());
    assert_eq!(remote_path("/d", "f"), "/d/f");
}
