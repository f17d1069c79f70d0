use debug_console::config::{
    default_dut_config, defaults, dut_toml_to_config, find_dut, load_config, merge_dut_config,
    needs_client_settings, parse_dut_configs, parse_toml_config, port_conflicts,
    resolve_dev_host, toml_value_to_string, Config, ConfigFormat, DevHostConfig, DevHostToml,
    DutConfig, DutToml, MonitorToml, RelayToml, SerialToml, TargetCredsToml, TargetToml,
    TomlValue, UbootToml,
};
use debug_console::config_map::ConfigMap;

fn config(values: ConfigMap) -> Config {
    Config { values, config_path: None, project_dir: None, format: ConfigFormat::Absent }
}

fn text(s: &str) -> Option<String> {
    Some(s.to_string())
}

fn value<'a>(m: &'a ConfigMap, key: &str) -> Option<&'a str> {
    m.get(key).map(|s| s.as_str())
}

fn blank() -> TargetToml {
    TargetToml {
        dev_hosts: None,
        dev_host: None,
        serial: None,
        target: None,
        uboot: None,
        relay: None,
        monitor: None,
        flash: None,
        control: None,
        dut: None,
        reference_log: None,
        lock_dir: None,
        dut_dir: None,
    }
}

fn host(alias: Option<&str>, ip: &str, user: Option<&str>) -> DevHostToml {
    DevHostToml {
        alias: alias.map(|s| s.to_string()),
        ip: text(ip),
        user: user.map(|s| s.to_string()),
        pass: None,
    }
}

fn serial(port: i64) -> SerialToml {
    SerialToml { ip: None, port: Some(TomlValue::Integer(port)), baudrate: None }
}

fn creds(user: &str, pass: Option<&str>) -> TargetCredsToml {
    TargetCredsToml {
        login_user: text(user),
        login_pass: pass.map(|s| s.to_string()),
        login_prompt: None,
    }
}

fn relay(port: u16) -> RelayToml {
    RelayToml {
        relay_type: None,
        port: Some(port),
        ip: None,
        reset_ch: None,
        maskrom_ch: None,
        recovery_ch: None,
        power_ch: None,
        reset_channel: None,
        maskrom_channel: None,
        recovery_channel: None,
        power_channel: None,
        reset_time_ms: None,
        power_off_time_ms: None,
    }
}

fn monitor(hang_timeout: u64) -> MonitorToml {
    MonitorToml {
        hang_timeout: Some(hang_timeout),
        hang_hysteresis: None,
        max_archived_logs: None,
        max_log_file_size: None,
        reference_log: None,
        learner_stage_threshold: None,
        learner_crash_threshold: None,
        crash_patterns: None,
    }
}

fn blank_dut(alias: &str, dev_host: &str) -> DutToml {
    DutToml {
        alias: text(alias),
        dev_host: text(dev_host),
        serial: None,
        target: None,
        relay: None,
        monitor: None,
        flash: None,
        control: None,
        reference_log: None,
        dut_dir: None,
    }
}

#[test]
fn test_defaults() {
    let d = defaults();
    assert_eq!(d.get("DEV_HOST_IP").unwrap(), "");
    assert_eq!(d.get("SERIAL_PORT").unwrap(), "2000");
    assert_eq!(d.get("HANG_TIMEOUT").unwrap(), "60");
}

#[test]
fn test_uboot_interrupt_char_ctrl_c() {
    let mut v = defaults();
    v.insert("UBOOT_INTERRUPT_CHAR".to_string(), "ctrl_c".to_string());
    assert_eq!(config(v).uboot_interrupt_char(), 0x03);
}

#[test]
fn test_uboot_interrupt_char_allwinner() {
    let mut v = defaults();
    v.insert("UBOOT_INTERRUPT_CHAR".to_string(), "2".to_string());
    assert_eq!(config(v).uboot_interrupt_char(), b'2');
}

#[test]
fn test_empty_string_values() {
    let mut v = defaults();
    v.insert("DEV_HOST_IP".to_string(), "".to_string());
    assert_eq!(config(v).dev_host_ip(), "");
}

#[test]
fn test_parse_toml_config() {
    let mut t = blank();
    t.dev_hosts = Some(vec![host(None, "10.0.0.99", Some("linaro"))]);
    t.serial = Some(serial(9999));
    t.target = Some(creds("admin", Some("secret")));
    t.uboot = Some(UbootToml {
        interrupt_char: text("ctrl_c"),
        interrupt_strategy: text("aggressive"),
    });
    let mut r = relay(2001);
    r.reset_channel = Some(1);
    r.maskrom_channel = Some(2);
    t.relay = Some(r);
    t.monitor = Some(monitor(120));
    let cfg = parse_toml_config(&t);
    assert_eq!(cfg.get("DEV_HOST_IP").unwrap(), "10.0.0.99");
    assert_eq!(cfg.get("DEV_HOST_USER").unwrap(), "linaro");
    assert_eq!(cfg.get("SERIAL_PORT").unwrap(), "9999");
    assert_eq!(cfg.get("LOGIN_USER").unwrap(), "admin");
    assert_eq!(cfg.get("LOGIN_PASS").unwrap(), "secret");
    assert_eq!(cfg.get("UBOOT_INTERRUPT_CHAR").unwrap(), "ctrl_c");
    assert_eq!(cfg.get("UBOOT_INTERRUPT_STRATEGY").unwrap(), "aggressive");
    assert_eq!(cfg.get("RELAY_PORT").unwrap(), "2001");
    assert_eq!(cfg.get("RESET_CHANNEL").unwrap(), "1");
    assert_eq!(cfg.get("MASKROM_CHANNEL").unwrap(), "2");
    assert_eq!(cfg.get("HANG_TIMEOUT").unwrap(), "120");
}

#[test]
fn test_toml_config_partial() {
    let mut t = blank();
    t.dev_hosts = Some(vec![host(None, "192.168.1.1", None)]);
    t.serial = Some(serial(2000));
    let cfg = parse_toml_config(&t);
    assert_eq!(cfg.get("DEV_HOST_IP").unwrap(), "192.168.1.1");
    assert_eq!(cfg.get("SERIAL_PORT").unwrap(), "2000");
    assert!(cfg.get("LOGIN_USER").is_none());
}

#[test]
fn test_toml_config_dev_hosts_single_table() {
    let mut t = blank();
    t.dev_hosts = Some(vec![host(Some("main-host"), "10.0.0.100", Some("modern"))]);
    t.serial = Some(serial(3000));
    let cfg = parse_toml_config(&t);
    assert_eq!(cfg.get("DEV_HOST_IP").unwrap(), "10.0.0.100");
    assert_eq!(cfg.get("DEV_HOST_USER").unwrap(), "modern");
    assert_eq!(cfg.get("DEV_HOST_ALIAS").unwrap(), "main-host");
    assert_eq!(cfg.get("SERIAL_PORT").unwrap(), "3000");
}

fn two_duts() -> TargetToml {
    let mut t = blank();
    t.dev_hosts = Some(vec![
        host(Some("rk-board-pc"), "192.168.1.100", Some("linaro")),
        host(Some("lab-pc-2"), "192.168.2.200", Some("root")),
    ]);
    let mut first = blank_dut("rk3576", "rk-board-pc");
    first.serial = Some(serial(2000));
    first.target = Some(creds("root", None));
    let mut r = relay(2001);
    r.reset_ch = Some(1);
    first.relay = Some(r);
    let mut second = blank_dut("rk3588", "lab-pc-2");
    second.serial = Some(serial(2010));
    second.target = Some(creds("testuser", Some("pass")));
    let mut m = monitor(90);
    m.reference_log = text(".dut-serial/rk3588/reference-boot.log");
    second.monitor = Some(m);
    t.dut = Some(vec![first, second]);
    t
}

#[test]
fn test_toml_config_multi_dev_hosts_multi_dut() {
    let result = parse_dut_configs(&two_duts());
    assert_eq!(result.len(), 2);
    let rk3576 = &result[0];
    assert_eq!(rk3576.alias, "rk3576");
    assert_eq!(rk3576.dev_host_ip, "192.168.1.100");
    assert_eq!(rk3576.dev_host_user, "linaro");
    assert_eq!(rk3576.serial_port, "2000");
    assert_eq!(rk3576.login_user, "root");
    assert_eq!(rk3576.reset_ch, 1);
    assert_eq!(rk3576.relay_port, 2001);
    let rk3588 = &result[1];
    assert_eq!(rk3588.alias, "rk3588");
    assert_eq!(rk3588.dev_host_ip, "192.168.2.200");
    assert_eq!(rk3588.dev_host_user, "root");
    assert_eq!(rk3588.serial_port, "2010");
    assert_eq!(rk3588.login_user, "testuser");
    assert_eq!(rk3588.login_pass, "pass");
    assert_eq!(find_dut(&result, "rk3588"), Some(1));
    assert_eq!(find_dut(&result, "other"), None);
}

#[test]
fn test_parse_dut_configs_with_dev_hosts_single_table() {
    let mut t = blank();
    t.dev_hosts = Some(vec![host(None, "192.168.1.105", Some("linaro"))]);
    t.serial = Some(serial(2002));
    t.target = Some(creds("root", Some("")));
    t.relay = Some(relay(2000));
    t.monitor = Some(monitor(60));
    let result = parse_dut_configs(&t);
    assert_eq!(result.len(), 1);
    let dut = &result[0];
    assert_eq!(dut.dev_host_ip, "192.168.1.105");
    assert_eq!(dut.dev_host_user, "linaro");
    assert_eq!(dut.serial_port, "2002");
    assert_eq!(dut.login_user, "root");
    assert_eq!(dut.relay_port, 2000);
}

#[test]
fn test_load_config_toml_preferred() {
    let mut t = blank();
    t.dev_hosts = Some(vec![host(None, "10.0.0.1", None)]);
    t.serial = Some(serial(5000));
    let cfg = load_config(text("/p/.target.toml"), text("/p"), text("toml"), Some(&t), None);
    assert_eq!(cfg.dev_host_ip(), "10.0.0.1");
    assert!(cfg.format == ConfigFormat::Toml);
}

#[test]
fn test_malformed_toml_does_not_panic() {
    let cfg = load_config(text("/p/.target.toml"), text("/p"), text("toml"), None, None);
    assert_eq!(cfg.dev_host_ip(), "");
}

#[test]
fn test_missing_all_sections_uses_defaults() {
    let mut t = blank();
    t.dev_hosts = Some(vec![host(None, "10.0.0.1", None)]);
    let cfg = load_config(text("/p/.target.toml"), text("/p"), text("toml"), Some(&t), None);
    assert_eq!(cfg.dev_host_ip(), "10.0.0.1");
    assert_eq!(cfg.serial_target(), "2000");
    assert_eq!(cfg.login_user(), "root");
}

fn make_dut_toml(serial_ip: Option<&str>, relay_ip: Option<&str>) -> DutToml {
    let mut dut = blank_dut("test-dut", "main");
    let mut s = serial(2000);
    s.ip = serial_ip.map(|s| s.to_string());
    dut.serial = Some(s);
    let mut r = relay(2002);
    r.relay_type = text("usb-relay");
    r.ip = relay_ip.map(|s| s.to_string());
    r.reset_ch = Some(1);
    dut.relay = Some(r);
    dut
}

fn make_dev_hosts() -> Vec<DevHostConfig> {
    vec![DevHostConfig {
        alias: "main".to_string(),
        ip: "10.0.0.1".to_string(),
        user: "linaro".to_string(),
        pass: String::new(),
    }]
}

#[test]
fn test_dut_serial_ip_falls_back_to_dev_host_ip() {
    let dut_toml = make_dut_toml(None, Some("10.0.0.1"));
    let config = dut_toml_to_config(&dut_toml, &ConfigMap::new(), &make_dev_hosts());
    assert_eq!(config.dev_host_ip, "10.0.0.1");
    assert_eq!(config.serial_ip, "10.0.0.1", "serial_ip should fall back to dev_host_ip");
}

#[test]
fn test_dut_serial_ip_uses_explicit_value() {
    let dut_toml = make_dut_toml(Some("192.168.99.1"), None);
    let config = dut_toml_to_config(&dut_toml, &ConfigMap::new(), &make_dev_hosts());
    assert_eq!(config.dev_host_ip, "10.0.0.1");
    assert_eq!(config.serial_ip, "192.168.99.1", "explicit serial_ip should be preserved");
}

#[test]
fn test_dut_relay_ip_falls_back_to_dev_host_ip() {
    let dut_toml = make_dut_toml(Some("10.0.0.1"), None);
    let config = dut_toml_to_config(&dut_toml, &ConfigMap::new(), &make_dev_hosts());
    assert_eq!(config.dev_host_ip, "10.0.0.1");
    assert_eq!(config.relay_ip, "10.0.0.1", "relay_ip should fall back to dev_host_ip");
}

#[test]
fn test_dut_relay_ip_uses_explicit_value() {
    let dut_toml = make_dut_toml(None, Some("192.168.88.1"));
    let config = dut_toml_to_config(&dut_toml, &ConfigMap::new(), &make_dev_hosts());
    assert_eq!(config.dev_host_ip, "10.0.0.1");
    assert_eq!(config.relay_ip, "192.168.88.1", "explicit relay_ip should be preserved");
}

#[test]
fn test_dut_both_ips_fall_back_to_dev_host_ip() {
    let dut_toml = make_dut_toml(None, None);
    let config = dut_toml_to_config(&dut_toml, &ConfigMap::new(), &make_dev_hosts());
    assert_eq!(config.serial_ip, "10.0.0.1", "serial_ip should fall back");
    assert_eq!(config.relay_ip, "10.0.0.1", "relay_ip should fall back");
}

#[test]
fn test_dut_ip_fallback_in_full_config_map() {
    let dut_toml = make_dut_toml(None, None);
    let global = defaults();
    let config = dut_toml_to_config(&dut_toml, &global, &make_dev_hosts());
    let cfg_map = config.to_config_map(&global);
    assert_eq!(cfg_map.get("SERIAL_IP").unwrap(), "10.0.0.1");
    assert_eq!(cfg_map.get("RELAY_IP").unwrap(), "10.0.0.1");
    assert_eq!(cfg_map.get("DEV_HOST_IP").unwrap(), "10.0.0.1");
}

#[test]
fn test_dut_alias_to_config_map_preserves_all_fields() {
    let global = defaults();
    let dut = DutConfig {
        alias: "my-dut".to_string(),
        dev_host_alias: "main".to_string(),
        dev_host_ip: "10.0.0.1".to_string(),
        dev_host_user: "linaro".to_string(),
        dev_host_pass: String::new(),
        serial_port: "2008".to_string(),
        serial_ip: String::new(),
        relay_ip: String::new(),
        relay_type: "usb-relay".to_string(),
        relay_port: 2002,
        reset_ch: 1,
        maskrom_ch: 2,
        recovery_ch: 0,
        power_ch: 0,
        power_off_time_ms: 3000,
        reference_log: ".dut-serial/my-dut/reference-boot.log".to_string(),
        dut_dir: ".dut-serial/my-dut".to_string(),
        login_user: "root".to_string(),
        login_pass: String::new(),
        learner_stage_threshold: String::new(),
        learner_crash_threshold: String::new(),
        crash_patterns: Vec::new(),
    };
    let cfg = dut.to_config_map(&global);
    assert_eq!(value(&cfg, "DUT_ALIAS"), Some("my-dut"));
    assert_eq!(value(&cfg, "DEV_HOST_IP"), Some("10.0.0.1"));
    assert_eq!(value(&cfg, "SERIAL_PORT"), Some("2008"));
    assert_eq!(value(&cfg, "RELAY_PORT"), Some("2002"));
    assert_eq!(value(&cfg, "RESET_CHANNEL"), Some("1"));
    assert_eq!(value(&cfg, "MASKROM_CHANNEL"), Some("2"));
}

#[test]
fn test_config_validation_missing_host() {
    let mut values = ConfigMap::new();
    values.insert("SERIAL_PORT".to_string(), "2002".to_string());
    values.insert("DUT_DIR".to_string(), ".dut-serial".to_string());
    let result = config(values).validate();
    assert!(result.is_err(), "Should error when dev_host_ip is empty");
    let errors = result.unwrap_err();
    assert!(
        errors.iter().any(|e| e.contains("dev_host")),
        "Error should mention dev_host, got: {:?}",
        errors
    );
}

#[test]
fn test_config_validation_missing_port() {
    let mut values = ConfigMap::new();
    values.insert("DEV_HOST_IP".to_string(), "192.168.1.1".to_string());
    values.insert("SERIAL_PORT".to_string(), "0".to_string());
    values.insert("DUT_DIR".to_string(), ".dut-serial".to_string());
    let result = config(values).validate();
    assert!(result.is_err(), "Should error when serial_port is 0");
    let errors = result.unwrap_err();
    assert!(
        errors.iter().any(|e| e.contains("serial.port") || e.contains("port")),
        "Error should mention port, got: {:?}",
        errors
    );
}

#[test]
fn a_dut_is_selected_by_its_alias() {
    let t = two_duts();
    let path = || text("/p/.target.toml");
    let cfg = load_config(path(), text("/p"), text("toml"), Some(&t), text("rk3588"));
    assert_eq!(cfg.serial_target(), "2010");
    assert_eq!(cfg.login_user(), "testuser");
    assert_eq!(cfg.dev_host_ip(), "192.168.2.200");
    let mut cfg = parse_toml_config(&t);
    merge_dut_config(&mut cfg, &two_duts().dut.unwrap()[1]);
    assert_eq!(value(&cfg, "SERIAL_PORT"), Some("2010"));
    assert_eq!(value(&cfg, "HANG_TIMEOUT"), Some("90"));
}

#[test]
fn ports_that_are_shared_are_found() {
    let mut duts = parse_dut_configs(&two_duts());
    assert_eq!(port_conflicts(&duts).len(), 0);
    duts[1].serial_port = "2000".to_string();
    duts[1].dev_host_ip = duts[0].dev_host_ip.clone();
    duts[1].serial_ip = duts[0].serial_ip.clone();
    let found = port_conflicts(&duts);
    assert_eq!(found.len(), 1);
    assert_eq!(found[0].aliases, vec!["rk3576".to_string(), "rk3588".to_string()]);
}

#[test]
fn numbers_fall_back_to_defaults() {
    let mut v = ConfigMap::new();
    v.insert("HANG_TIMEOUT".to_string(), "soon".to_string());
    v.insert("POWER_OFF_TIME_MS".to_string(), "10".to_string());
    v.insert("N".to_string(), "-7".to_string());
    let cfg = config(v);
    assert_eq!(cfg.hang_timeout(), 60);
    assert_eq!(cfg.hang_hysteresis(), 3);
    assert_eq!(cfg.power_off_time_ms(), 3000);
    assert_eq!(cfg.relay_port(), 0);
    assert_eq!(cfg.get_int("N"), -7);
    assert_eq!(cfg.get("NONE"), "");
    assert_eq!(cfg.get_str_or("NONE", "x"), "x");
    assert_eq!(cfg.dut_dir(), ".dut-serial");
    assert!(cfg.crash_patterns().contains(&"Kernel panic".to_string()));
}

#[test]
fn interrupt_characters_can_be_written_in_several_ways() {
    let of = |s: &str| {
        let mut v = ConfigMap::new();
        v.insert("UBOOT_INTERRUPT_CHAR".to_string(), s.to_string());
        config(v).uboot_interrupt_char()
    };
    assert_eq!(of("0x1b"), 0x1b);
    assert_eq!(of(" "), b' ');
    assert_eq!(of(""), 0x03);
}

#[test]
fn values_of_any_kind_become_text() {
    assert_eq!(toml_value_to_string(&TomlValue::Integer(-5)), "-5");
    assert_eq!(toml_value_to_string(&TomlValue::Text("x".to_string())), "x");
    assert_eq!(toml_value_to_string(&TomlValue::Other("1.5".to_string())), "1.5");
}

#[test]
fn hosts_are_resolved() {
    let hosts = make_dev_hosts();
    assert_eq!(resolve_dev_host(&hosts, Some("main")).ip, "10.0.0.1");
    assert_eq!(resolve_dev_host(&hosts, None).ip, "10.0.0.1");
    assert_eq!(resolve_dev_host(&[], Some("main")).ip, "");
    assert_eq!(default_dut_config(&defaults(), &hosts).dev_host_user, "linaro");
}

#[test]
fn client_settings_are_written_once() {
    assert!(needs_client_settings(true, false));
    assert!(!needs_client_settings(true, true));
    assert!(!needs_client_settings(false, false));
}

#[test]
fn a_single_host_can_be_given() {
    let mut t = blank();
    t.dev_host = Some(host(None, "192.168.1.105", Some("linaro")));
    t.serial = Some(serial(2004));
    let cfg = load_config(text("/p/.target.toml"), text("/p"), text("toml"), Some(&t), None);
    assert_eq!(cfg.dev_host_ip(), "192.168.1.105");
    assert_eq!(parse_dut_configs(&t)[0].dev_host_ip, "192.168.1.105");
    t.dev_hosts = Some(vec![host(None, "10.0.0.1", None)]);
    assert_eq!(parse_dut_configs(&t)[0].dev_host_ip, "10.0.0.1");
}
