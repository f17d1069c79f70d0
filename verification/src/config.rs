//! Configuration: default values, the values of a configuration file, and the
//! values of each device under test (DUT).
//!
//! A configuration is a flat map from keys to texts. The file's sections are
//! plain structs; each section says which keys it sets.

use crate::config_map::ConfigMap;
use crate::text::{
    cat, cat3, chars_of, clone_texts, decimal, decimal_text, eq_text, is_at,
    join_texts, joined, parse_int, parse_signed, parse_uint, parse_unsigned, pieces, split_text,
    starts_with_text, text_option, texts, trim, trim_text,
};
use vstd::prelude::*;
use vstd::string::*;

verus! {

/// What a configuration says: texts under keys.
pub type Values = Map<Seq<char>, Seq<char>>;

// ── Setting values ──────────────────────────────────────────────────────────

/// The map with a value set where there is one.
pub open spec fn put(m: Values, key: Seq<char>, value: Option<Seq<char>>) -> Values {
    match value {
        Some(v) => m.insert(key, v),
        None => m,
    }
}

/// The map with a value set where it is not empty.
#[verifier::opaque]
pub open spec fn put_text(m: Values, key: Seq<char>, value: Seq<char>) -> Values {
    if value.len() > 0 {
        m.insert(key, value)
    } else {
        m
    }
}

/// The map with a number set where it is not zero.
#[verifier::opaque]
pub open spec fn put_number(m: Values, key: Seq<char>, n: nat) -> Values {
    if n > 0 {
        m.insert(key, decimal(n))
    } else {
        m
    }
}

fn set_option(m: &mut ConfigMap, key: &str, value: Option<String>)
    ensures
        final(m)@ == put(old(m)@, key@, text_option(value)),
{
    if let Some(v) = value {
        m.insert(key.to_owned(), v);
    }
}

fn set_text(m: &mut ConfigMap, key: &str, value: &str)
    ensures
        final(m)@ == put_text(old(m)@, key@, value@),
{
    proof {
        reveal(put_text);
    }
    if !value.is_empty() {
        m.insert(key.to_owned(), value.to_owned());
    }
}

fn set_number(m: &mut ConfigMap, key: &str, n: u64)
    ensures
        final(m)@ == put_number(old(m)@, key@, n as nat),
{
    proof {
        reveal(put_number);
    }
    if n > 0 {
        m.insert(key.to_owned(), decimal_text(n));
    }
}

fn copy_option(o: &Option<String>) -> (r: Option<String>)
    ensures
        text_option(r) == text_option(*o),
{
    match o {
        Some(s) => Some(s.clone()),
        None => None,
    }
}

/// A text, or another where there is none.
pub open spec fn or_text(o: Option<String>, other: Seq<char>) -> Seq<char> {
    match o {
        Some(s) => s@,
        None => other,
    }
}

fn text_or(o: &Option<String>, other: &str) -> (r: String)
    ensures
        r@ == or_text(*o, other@),
{
    match o {
        Some(s) => s.clone(),
        None => other.to_owned(),
    }
}

/// The first of two numbers that is there.
pub open spec fn first_of(a: Option<u8>, b: Option<u8>) -> Option<u8> {
    if a is Some {
        a
    } else {
        b
    }
}

fn first_number(a: Option<u8>, b: Option<u8>) -> (r: Option<u8>)
    ensures
        r == first_of(a, b),
{
    if a.is_some() {
        a
    } else {
        b
    }
}

/// An optional number in decimal.
pub open spec fn decimal_u8(o: Option<u8>) -> Option<Seq<char>> {
    match o {
        Some(n) => Some(decimal(n as nat)),
        None => None,
    }
}

fn text_u8(o: Option<u8>) -> (r: Option<String>)
    ensures
        text_option(r) == decimal_u8(o),
{
    match o {
        Some(n) => Some(decimal_text(n as u64)),
        None => None,
    }
}

/// An optional number in decimal.
pub open spec fn decimal_u16(o: Option<u16>) -> Option<Seq<char>> {
    match o {
        Some(n) => Some(decimal(n as nat)),
        None => None,
    }
}

fn text_u16(o: Option<u16>) -> (r: Option<String>)
    ensures
        text_option(r) == decimal_u16(o),
{
    match o {
        Some(n) => Some(decimal_text(n as u64)),
        None => None,
    }
}

/// An optional number in decimal.
pub open spec fn decimal_u32(o: Option<u32>) -> Option<Seq<char>> {
    match o {
        Some(n) => Some(decimal(n as nat)),
        None => None,
    }
}

fn text_u32(o: Option<u32>) -> (r: Option<String>)
    ensures
        text_option(r) == decimal_u32(o),
{
    match o {
        Some(n) => Some(decimal_text(n as u64)),
        None => None,
    }
}

/// An optional number in decimal.
pub open spec fn decimal_u64(o: Option<u64>) -> Option<Seq<char>> {
    match o {
        Some(n) => Some(decimal(n as nat)),
        None => None,
    }
}

fn text_u64(o: Option<u64>) -> (r: Option<String>)
    ensures
        text_option(r) == decimal_u64(o),
{
    match o {
        Some(n) => Some(decimal_text(n as u64)),
        None => None,
    }
}

/// An optional number in decimal.
pub open spec fn decimal_usize(o: Option<usize>) -> Option<Seq<char>> {
    match o {
        Some(n) => Some(decimal(n as nat)),
        None => None,
    }
}

fn text_usize(o: Option<usize>) -> (r: Option<String>)
    ensures
        text_option(r) == decimal_usize(o),
{
    match o {
        Some(n) => Some(decimal_text(n as u64)),
        None => None,
    }
}

// ── The sections of a file ──────────────────────────────────────────────────

/// A value that may be written as a text or as a number.
pub enum TomlValue {
    Text(String),
    Integer(i64),
    /// Any other value, as it is written in the file.
    Other(String),
}

/// A number in decimal, with a sign where it is negative.
pub open spec fn signed_decimal(i: int) -> Seq<char> {
    if i < 0 {
        "-"@ + decimal((-i) as nat)
    } else {
        decimal(i as nat)
    }
}

/// The text of a value.
pub open spec fn value_text(v: TomlValue) -> Seq<char> {
    match v {
        TomlValue::Text(s) => s@,
        TomlValue::Integer(i) => signed_decimal(i as int),
        TomlValue::Other(s) => s@,
    }
}

/// The text of an optional value.
pub open spec fn value_option(o: Option<TomlValue>) -> Option<Seq<char>> {
    match o {
        Some(v) => Some(value_text(v)),
        None => None,
    }
}

/// The text of a value.
pub fn toml_value_to_string(v: &TomlValue) -> (r: String)
    ensures
        r@ == value_text(*v),
{
    match v {
        TomlValue::Text(s) => s.clone(),
        TomlValue::Integer(i) => {
            let n: i64 = *i;
            if n < 0 {
                let magnitude: u64 = if n == i64::MIN {
                    9223372036854775808
                } else {
                    (-n) as u64
                };
                cat("-", &decimal_text(magnitude))
            } else {
                decimal_text(n as u64)
            }
        },
        TomlValue::Other(s) => s.clone(),
    }
}

fn text_value(o: &Option<TomlValue>) -> (r: Option<String>)
    ensures
        text_option(r) == value_option(*o),
{
    match o {
        Some(v) => Some(toml_value_to_string(v)),
        None => None,
    }
}

/// The host that a board hangs on.
pub struct DevHostToml {
    pub alias: Option<String>,
    pub ip: Option<String>,
    pub user: Option<String>,
    pub pass: Option<String>,
}

impl DevHostToml {
    /// The map with what the section sets.
    pub open spec fn onto(self, m: Values) -> Values {
        let m = put(m, "DEV_HOST_ALIAS"@, text_option(self.alias));
        let m = put(m, "DEV_HOST_IP"@, text_option(self.ip));
        let m = put(m, "DEV_HOST_USER"@, text_option(self.user));
        put(m, "DEV_HOST_PASS"@, text_option(self.pass))
    }

    /// Sets what the section says.
    pub fn apply(&self, m: &mut ConfigMap)
        ensures
            final(m)@ == self.onto(old(m)@),
    {
        set_option(m, "DEV_HOST_ALIAS", copy_option(&self.alias));
        set_option(m, "DEV_HOST_IP", copy_option(&self.ip));
        set_option(m, "DEV_HOST_USER", copy_option(&self.user));
        set_option(m, "DEV_HOST_PASS", copy_option(&self.pass));
    }

    /// The map with what a section sets where there is one.
    pub open spec fn option_onto(o: Option<DevHostToml>, m: Values) -> Values {
        match o {
            Some(s) => s.onto(m),
            None => m,
        }
    }

    fn apply_option(o: &Option<DevHostToml>, m: &mut ConfigMap)
        ensures
            final(m)@ == DevHostToml::option_onto(*o, old(m)@),
    {
        if let Some(s) = o {
            s.apply(m);
        }
    }
}

/// The serial line.
pub struct SerialToml {
    pub ip: Option<String>,
    pub port: Option<TomlValue>,
    pub baudrate: Option<TomlValue>,
}

impl SerialToml {
    /// The map with what the section sets.
    pub open spec fn onto(self, m: Values) -> Values {
        let m = put(m, "SERIAL_IP"@, text_option(self.ip));
        let m = put(m, "SERIAL_PORT"@, value_option(self.port));
        put(m, "SERIAL_BAUDRATE"@, value_option(self.baudrate))
    }

    /// Sets what the section says.
    pub fn apply(&self, m: &mut ConfigMap)
        ensures
            final(m)@ == self.onto(old(m)@),
    {
        set_option(m, "SERIAL_IP", copy_option(&self.ip));
        set_option(m, "SERIAL_PORT", text_value(&self.port));
        set_option(m, "SERIAL_BAUDRATE", text_value(&self.baudrate));
    }

    /// The map with what a section sets where there is one.
    pub open spec fn option_onto(o: Option<SerialToml>, m: Values) -> Values {
        match o {
            Some(s) => s.onto(m),
            None => m,
        }
    }

    fn apply_option(o: &Option<SerialToml>, m: &mut ConfigMap)
        ensures
            final(m)@ == SerialToml::option_onto(*o, old(m)@),
    {
        if let Some(s) = o {
            s.apply(m);
        }
    }
}

/// How to log in to the target.
pub struct TargetCredsToml {
    pub login_user: Option<String>,
    pub login_pass: Option<String>,
    pub login_prompt: Option<String>,
}

impl TargetCredsToml {
    /// The map with what the section sets.
    pub open spec fn onto(self, m: Values) -> Values {
        let m = put(m, "LOGIN_USER"@, text_option(self.login_user));
        let m = put(m, "LOGIN_PASS"@, text_option(self.login_pass));
        put(m, "LOGIN_PROMPT"@, text_option(self.login_prompt))
    }

    /// Sets what the section says.
    pub fn apply(&self, m: &mut ConfigMap)
        ensures
            final(m)@ == self.onto(old(m)@),
    {
        set_option(m, "LOGIN_USER", copy_option(&self.login_user));
        set_option(m, "LOGIN_PASS", copy_option(&self.login_pass));
        set_option(m, "LOGIN_PROMPT", copy_option(&self.login_prompt));
    }

    /// The map with what a section sets where there is one.
    pub open spec fn option_onto(o: Option<TargetCredsToml>, m: Values) -> Values {
        match o {
            Some(s) => s.onto(m),
            None => m,
        }
    }

    fn apply_option(o: &Option<TargetCredsToml>, m: &mut ConfigMap)
        ensures
            final(m)@ == TargetCredsToml::option_onto(*o, old(m)@),
    {
        if let Some(s) = o {
            s.apply(m);
        }
    }
}

/// How to stop the boot loader.
pub struct UbootToml {
    pub interrupt_char: Option<String>,
    pub interrupt_strategy: Option<String>,
}

impl UbootToml {
    /// The map with what the section sets.
    pub open spec fn onto(self, m: Values) -> Values {
        let m = put(m, "UBOOT_INTERRUPT_CHAR"@, text_option(self.interrupt_char));
        put(m, "UBOOT_INTERRUPT_STRATEGY"@, text_option(self.interrupt_strategy))
    }

    /// Sets what the section says.
    pub fn apply(&self, m: &mut ConfigMap)
        ensures
            final(m)@ == self.onto(old(m)@),
    {
        set_option(m, "UBOOT_INTERRUPT_CHAR", copy_option(&self.interrupt_char));
        set_option(m, "UBOOT_INTERRUPT_STRATEGY", copy_option(&self.interrupt_strategy));
    }

    /// The map with what a section sets where there is one.
    pub open spec fn option_onto(o: Option<UbootToml>, m: Values) -> Values {
        match o {
            Some(s) => s.onto(m),
            None => m,
        }
    }

    fn apply_option(o: &Option<UbootToml>, m: &mut ConfigMap)
        ensures
            final(m)@ == UbootToml::option_onto(*o, old(m)@),
    {
        if let Some(s) = o {
            s.apply(m);
        }
    }
}

/// The relay board.
pub struct RelayToml {
    pub relay_type: Option<String>,
    pub port: Option<u16>,
    pub ip: Option<String>,
    pub reset_ch: Option<u8>,
    pub maskrom_ch: Option<u8>,
    pub recovery_ch: Option<u8>,
    pub power_ch: Option<u8>,
    pub reset_channel: Option<u8>,
    pub maskrom_channel: Option<u8>,
    pub recovery_channel: Option<u8>,
    pub power_channel: Option<u8>,
    pub reset_time_ms: Option<u64>,
    pub power_off_time_ms: Option<u64>,
}

impl RelayToml {
    /// The map with what the section sets.
    pub open spec fn onto(self, m: Values) -> Values {
        let m = put(m, "RELAY_TYPE"@, text_option(self.relay_type));
        let m = put(m, "RELAY_PORT"@, decimal_u16(self.port));
        let m = put(m, "RELAY_IP"@, text_option(self.ip));
        let m = put(m, "RESET_CHANNEL"@, decimal_u8(first_of(self.reset_ch, self.reset_channel)));
        let m = put(m, "MASKROM_CHANNEL"@, decimal_u8(first_of(self.maskrom_ch, self.maskrom_channel)));
        let m = put(m, "RECOVERY_CHANNEL"@, decimal_u8(first_of(self.recovery_ch, self.recovery_channel)));
        put(m, "RESET_TIME_MS"@, decimal_u64(self.reset_time_ms))
    }

    /// Sets what the section says.
    pub fn apply(&self, m: &mut ConfigMap)
        ensures
            final(m)@ == self.onto(old(m)@),
    {
        set_option(m, "RELAY_TYPE", copy_option(&self.relay_type));
        set_option(m, "RELAY_PORT", text_u16(self.port));
        set_option(m, "RELAY_IP", copy_option(&self.ip));
        set_option(m, "RESET_CHANNEL", text_u8(first_number(self.reset_ch, self.reset_channel)));
        set_option(m, "MASKROM_CHANNEL", text_u8(first_number(self.maskrom_ch, self.maskrom_channel)));
        set_option(m, "RECOVERY_CHANNEL", text_u8(first_number(self.recovery_ch, self.recovery_channel)));
        set_option(m, "RESET_TIME_MS", text_u64(self.reset_time_ms));
    }

    /// The map with what a section sets where there is one.
    pub open spec fn option_onto(o: Option<RelayToml>, m: Values) -> Values {
        match o {
            Some(s) => s.onto(m),
            None => m,
        }
    }

    fn apply_option(o: &Option<RelayToml>, m: &mut ConfigMap)
        ensures
            final(m)@ == RelayToml::option_onto(*o, old(m)@),
    {
        if let Some(s) = o {
            s.apply(m);
        }
    }
}

/// Monitoring and logs. A learner threshold is a positive number in decimal.
pub struct MonitorToml {
    pub hang_timeout: Option<u64>,
    pub hang_hysteresis: Option<u32>,
    pub max_archived_logs: Option<usize>,
    pub max_log_file_size: Option<u64>,
    pub reference_log: Option<String>,
    pub learner_stage_threshold: Option<String>,
    pub learner_crash_threshold: Option<String>,
    pub crash_patterns: Option<Vec<String>>,
}

impl MonitorToml {
    /// The map with what the section sets.
    pub open spec fn onto(self, m: Values) -> Values {
        let m = put(m, "HANG_TIMEOUT"@, decimal_u64(self.hang_timeout));
        let m = put(m, "HANG_HYSTERESIS"@, decimal_u32(self.hang_hysteresis));
        let m = put(m, "MAX_ARCHIVED_LOGS"@, decimal_usize(self.max_archived_logs));
        let m = put(m, "MAX_LOG_FILE_SIZE"@, decimal_u64(self.max_log_file_size));
        put(m, "REFERENCE_LOG"@, text_option(self.reference_log))
    }

    /// Sets what the section says.
    pub fn apply(&self, m: &mut ConfigMap)
        ensures
            final(m)@ == self.onto(old(m)@),
    {
        set_option(m, "HANG_TIMEOUT", text_u64(self.hang_timeout));
        set_option(m, "HANG_HYSTERESIS", text_u32(self.hang_hysteresis));
        set_option(m, "MAX_ARCHIVED_LOGS", text_usize(self.max_archived_logs));
        set_option(m, "MAX_LOG_FILE_SIZE", text_u64(self.max_log_file_size));
        set_option(m, "REFERENCE_LOG", copy_option(&self.reference_log));
    }

    /// The map with what a section sets where there is one.
    pub open spec fn option_onto(o: Option<MonitorToml>, m: Values) -> Values {
        match o {
            Some(s) => s.onto(m),
            None => m,
        }
    }

    fn apply_option(o: &Option<MonitorToml>, m: &mut ConfigMap)
        ensures
            final(m)@ == MonitorToml::option_onto(*o, old(m)@),
    {
        if let Some(s) = o {
            s.apply(m);
        }
    }
}

/// Commands that write images.
pub struct FlashToml {
    pub tool: Option<String>,
    pub full_image_cmd: Option<String>,
    pub kernel_image_cmd: Option<String>,
    pub loader_bin: Option<String>,
    pub loader_cmd: Option<String>,
    pub list_devices_cmd: Option<String>,
    pub upload_dir: Option<String>,
}

impl FlashToml {
    /// The map with what the section sets.
    pub open spec fn onto(self, m: Values) -> Values {
        let m = put(m, "FLASH_TOOL"@, text_option(self.tool));
        let m = put(m, "FLASH_FULL_IMAGE_CMD"@, text_option(self.full_image_cmd));
        let m = put(m, "FLASH_KERNEL_IMAGE_CMD"@, text_option(self.kernel_image_cmd));
        let m = put(m, "FLASH_LOADER_BIN"@, text_option(self.loader_bin));
        let m = put(m, "FLASH_LOADER_CMD"@, text_option(self.loader_cmd));
        let m = put(m, "FLASH_LIST_DEVICES_CMD"@, text_option(self.list_devices_cmd));
        put(m, "FLASH_UPLOAD_DIR"@, text_option(self.upload_dir))
    }

    /// Sets what the section says.
    pub fn apply(&self, m: &mut ConfigMap)
        ensures
            final(m)@ == self.onto(old(m)@),
    {
        set_option(m, "FLASH_TOOL", copy_option(&self.tool));
        set_option(m, "FLASH_FULL_IMAGE_CMD", copy_option(&self.full_image_cmd));
        set_option(m, "FLASH_KERNEL_IMAGE_CMD", copy_option(&self.kernel_image_cmd));
        set_option(m, "FLASH_LOADER_BIN", copy_option(&self.loader_bin));
        set_option(m, "FLASH_LOADER_CMD", copy_option(&self.loader_cmd));
        set_option(m, "FLASH_LIST_DEVICES_CMD", copy_option(&self.list_devices_cmd));
        set_option(m, "FLASH_UPLOAD_DIR", copy_option(&self.upload_dir));
    }

    /// The map with what a section sets where there is one.
    pub open spec fn option_onto(o: Option<FlashToml>, m: Values) -> Values {
        match o {
            Some(s) => s.onto(m),
            None => m,
        }
    }

    fn apply_option(o: &Option<FlashToml>, m: &mut ConfigMap)
        ensures
            final(m)@ == FlashToml::option_onto(*o, old(m)@),
    {
        if let Some(s) = o {
            s.apply(m);
        }
    }
}

/// The external control program.
pub struct ControlToml {
    pub dev_ctl: Option<String>,
}

impl ControlToml {
    /// The map with what the section sets.
    pub open spec fn onto(self, m: Values) -> Values {
        put(m, "DEV_CTL"@, text_option(self.dev_ctl))
    }

    /// Sets what the section says.
    pub fn apply(&self, m: &mut ConfigMap)
        ensures
            final(m)@ == self.onto(old(m)@),
    {
        set_option(m, "DEV_CTL", copy_option(&self.dev_ctl));
    }

    /// The map with what a section sets where there is one.
    pub open spec fn option_onto(o: Option<ControlToml>, m: Values) -> Values {
        match o {
            Some(s) => s.onto(m),
            None => m,
        }
    }

    fn apply_option(o: &Option<ControlToml>, m: &mut ConfigMap)
        ensures
            final(m)@ == ControlToml::option_onto(*o, old(m)@),
    {
        if let Some(s) = o {
            s.apply(m);
        }
    }
}

/// One DUT of a file.
pub struct DutToml {
    pub alias: Option<String>,
    /// The alias of a host; the first host where it is not set.
    pub dev_host: Option<String>,
    pub serial: Option<SerialToml>,
    pub target: Option<TargetCredsToml>,
    pub relay: Option<RelayToml>,
    pub monitor: Option<MonitorToml>,
    pub flash: Option<FlashToml>,
    pub control: Option<ControlToml>,
    pub reference_log: Option<String>,
    pub dut_dir: Option<String>,
}

/// A configuration file.
pub struct TargetToml {
    pub dev_hosts: Option<Vec<DevHostToml>>,
    /// A single host; the list of hosts goes before it.
    pub dev_host: Option<DevHostToml>,
    pub serial: Option<SerialToml>,
    pub target: Option<TargetCredsToml>,
    pub uboot: Option<UbootToml>,
    pub relay: Option<RelayToml>,
    pub monitor: Option<MonitorToml>,
    pub flash: Option<FlashToml>,
    pub control: Option<ControlToml>,
    pub dut: Option<Vec<DutToml>>,
    pub reference_log: Option<String>,
    pub lock_dir: Option<String>,
    pub dut_dir: Option<String>,
}

impl DutToml {
    /// The map with what the DUT's entry sets. A DUT that has an alias but no
    /// directory gets one below `.dut-serial`.
    pub open spec fn onto(self, m: Values) -> Values {
        let m = match self.alias {
            Some(a) => {
                let m = m.insert("DUT_ALIAS"@, a@);
                if self.dut_dir is None {
                    m.insert("DUT_DIR"@, ".dut-serial/"@ + a@)
                } else {
                    m
                }
            },
            None => m,
        };
        let m = SerialToml::option_onto(self.serial, m);
        let m = TargetCredsToml::option_onto(self.target, m);
        let m = RelayToml::option_onto(self.relay, m);
        let m = MonitorToml::option_onto(self.monitor, m);
        let m = FlashToml::option_onto(self.flash, m);
        let m = ControlToml::option_onto(self.control, m);
        let m = put(m, "REFERENCE_LOG"@, text_option(self.reference_log));
        put(m, "DUT_DIR"@, text_option(self.dut_dir))
    }
}

/// Sets what a DUT's entry says.
pub fn merge_dut_config(cfg: &mut ConfigMap, dut: &DutToml)
    ensures
        final(cfg)@ == dut.onto(old(cfg)@),
{
    if let Some(alias) = &dut.alias {
        cfg.insert("DUT_ALIAS".to_owned(), alias.clone());
        if dut.dut_dir.is_none() {
            cfg.insert("DUT_DIR".to_owned(), cat(".dut-serial/", alias));
        }
    }
    SerialToml::apply_option(&dut.serial, cfg);
    TargetCredsToml::apply_option(&dut.target, cfg);
    RelayToml::apply_option(&dut.relay, cfg);
    MonitorToml::apply_option(&dut.monitor, cfg);
    FlashToml::apply_option(&dut.flash, cfg);
    ControlToml::apply_option(&dut.control, cfg);
    set_option(cfg, "REFERENCE_LOG", copy_option(&dut.reference_log));
    set_option(cfg, "DUT_DIR", copy_option(&dut.dut_dir));
}

/// The aliases of the DUTs that have one, in order.
pub open spec fn aliases_of(duts: Seq<DutToml>) -> Seq<Seq<char>>
    decreases duts.len(),
{
    if duts.len() == 0 {
        Seq::empty()
    } else {
        match duts.last().alias {
            Some(a) => aliases_of(duts.drop_last()).push(a@),
            None => aliases_of(duts.drop_last()),
        }
    }
}

fn collect_aliases(duts: &Vec<DutToml>) -> (r: Vec<String>)
    ensures
        texts(r@) == aliases_of(duts@),
{
    let mut r: Vec<String> = Vec::new();
    let mut i: usize = 0;
    assert(texts(r@) =~= aliases_of(duts@.subrange(0, 0)));
    while i < duts.len()
        invariant
            i <= duts@.len(),
            texts(r@) == aliases_of(duts@.subrange(0, i as int)),
        decreases duts@.len() - i,
    {
        let ghost s = duts@.subrange(0, i + 1);
        assert(s.drop_last() =~= duts@.subrange(0, i as int));
        if let Some(a) = &duts[i].alias {
            let ghost before = r@;
            r.push(a.clone());
            assert(texts(r@) =~= texts(before).push(a@));
        }
        i = i + 1;
    }
    assert(duts@.subrange(0, duts@.len() as int) =~= duts@);
    r
}

impl TargetToml {
    /// The hosts of the file: the list of hosts, or the single one where the list
    /// names none.
    pub open spec fn hosts(self) -> Seq<DevHostToml> {
        match self.dev_hosts {
            Some(hosts) if hosts@.len() > 0 => hosts@,
            _ => match self.dev_host {
                Some(h) => seq![h],
                None => Seq::empty(),
            },
        }
    }

    /// The map with what the file's global sections set.
    pub open spec fn globals(self, m: Values) -> Values {
        let m = if self.hosts().len() > 0 {
            self.hosts()[0].onto(m)
        } else {
            m
        };
        let m = SerialToml::option_onto(self.serial, m);
        let m = TargetCredsToml::option_onto(self.target, m);
        let m = UbootToml::option_onto(self.uboot, m);
        let m = RelayToml::option_onto(self.relay, m);
        let m = MonitorToml::option_onto(self.monitor, m);
        let m = FlashToml::option_onto(self.flash, m);
        let m = ControlToml::option_onto(self.control, m);
        let m = put(m, "REFERENCE_LOG"@, text_option(self.reference_log));
        let m = put(m, "LOCK_DIR"@, text_option(self.lock_dir));
        put(m, "DUT_DIR"@, text_option(self.dut_dir))
    }

    /// The values of the file: its global sections, the list of the DUTs'
    /// aliases, and what the first DUT sets.
    pub open spec fn values(self) -> Values {
        let m = self.globals(Map::empty());
        match self.dut {
            Some(duts) => {
                let m = if aliases_of(duts@).len() > 0 {
                    m.insert("DUT_ALIASES"@, joined(aliases_of(duts@), ","@))
                } else {
                    m
                };
                if !m.contains_key("DUT_ALIAS"@) && duts@.len() > 0 {
                    duts@[0].onto(m)
                } else {
                    m
                }
            },
            None => m,
        }
    }
}

/// The values of a file.
pub fn parse_toml_config(t: &TargetToml) -> (cfg: ConfigMap)
    ensures
        cfg@ == t.values(),
{
    let mut cfg = ConfigMap::new();
    match &t.dev_hosts {
        Some(hosts) if hosts.len() > 0 => {
            hosts[0].apply(&mut cfg);
        },
        _ => {
            if let Some(host) = &t.dev_host {
                host.apply(&mut cfg);
            }
        },
    }
    SerialToml::apply_option(&t.serial, &mut cfg);
    TargetCredsToml::apply_option(&t.target, &mut cfg);
    UbootToml::apply_option(&t.uboot, &mut cfg);
    RelayToml::apply_option(&t.relay, &mut cfg);
    MonitorToml::apply_option(&t.monitor, &mut cfg);
    FlashToml::apply_option(&t.flash, &mut cfg);
    ControlToml::apply_option(&t.control, &mut cfg);
    set_option(&mut cfg, "REFERENCE_LOG", copy_option(&t.reference_log));
    set_option(&mut cfg, "LOCK_DIR", copy_option(&t.lock_dir));
    set_option(&mut cfg, "DUT_DIR", copy_option(&t.dut_dir));
    assert(cfg@ == t.globals(Map::empty()));
    if let Some(duts) = &t.dut {
        let aliases = collect_aliases(duts);
        assert(aliases@.len() == aliases_of(duts@).len()) by {
            assert(texts(aliases@).len() == aliases@.len());
        }
        if aliases.len() > 0 {
            cfg.insert("DUT_ALIASES".to_owned(), join_texts(&aliases, ","));
        }
        if !cfg.contains_key("DUT_ALIAS") && duts.len() > 0 {
            merge_dut_config(&mut cfg, &duts[0]);
        }
    }
    cfg
}

// ── Default values ──────────────────────────────────────────────────────────

/// The values that hold where a file says nothing.
pub open spec fn default_values() -> Values {
    let m = Map::<Seq<char>, Seq<char>>::empty();
    let m = m.insert("DEV_HOST_IP"@, ""@);
    let m = m.insert("DEV_HOST_USER"@, ""@);
    let m = m.insert("DEV_HOST_PASS"@, ""@);
    let m = m.insert("SERIAL_PORT"@, "2000"@);
    let m = m.insert("SERIAL_IP"@, ""@);
    let m = m.insert("SERIAL_PROTOCOL"@, "raw"@);
    let m = m.insert("SERIAL_BAUDRATE"@, "1500000"@);
    let m = m.insert("LOGIN_USER"@, "root"@);
    let m = m.insert("LOGIN_PASS"@, ""@);
    let m = m.insert("LOGIN_PROMPT"@, ""@);
    let m = m.insert("RELAY_PORT"@, "0"@);
    let m = m.insert("RELAY_IP"@, ""@);
    let m = m.insert("RESET_CHANNEL"@, "0"@);
    let m = m.insert("MASKROM_CHANNEL"@, "0"@);
    let m = m.insert("RECOVERY_CHANNEL"@, "0"@);
    let m = m.insert("DEV_CTL"@, ""@);
    let m = m.insert("HANG_TIMEOUT"@, "60"@);
    let m = m.insert("HANG_HYSTERESIS"@, "3"@);
    let m = m.insert("MAX_ARCHIVED_LOGS"@, "10"@);
    let m = m.insert("MAX_LOG_FILE_SIZE"@, "100"@);
    let m = m.insert("DUT_DIR"@, ".dut-serial"@);
    let m = m.insert("UBOOT_INTERRUPT_STRATEGY"@, "lava"@);
    let m = m.insert("UBOOT_INTERRUPT_CHAR"@, "ctrl_c"@);
    let m = m.insert("LOCK_DIR"@, "/tmp/debug-console/locks"@);
    let m = m.insert("REFERENCE_LOG"@, ""@);
    let m = m.insert("FLASH_LOADER_CMD"@, ""@);
    let m = m.insert("FLASH_LIST_DEVICES_CMD"@, ""@);
    let m = m.insert("RESET_TIME_MS"@, ""@);
    let m = m.insert("LEARNER_STAGE_THRESHOLD"@, ""@);
    m.insert("LEARNER_CRASH_THRESHOLD"@, ""@)
}

/// The values that hold where a file says nothing.
pub fn defaults() -> (m: ConfigMap)
    ensures
        m@ == default_values(),
{
    let mut m = ConfigMap::new();
    m.insert("DEV_HOST_IP".to_owned(), "".to_owned());
    m.insert("DEV_HOST_USER".to_owned(), "".to_owned());
    m.insert("DEV_HOST_PASS".to_owned(), "".to_owned());
    m.insert("SERIAL_PORT".to_owned(), "2000".to_owned());
    m.insert("SERIAL_IP".to_owned(), "".to_owned());
    m.insert("SERIAL_PROTOCOL".to_owned(), "raw".to_owned());
    m.insert("SERIAL_BAUDRATE".to_owned(), "1500000".to_owned());
    m.insert("LOGIN_USER".to_owned(), "root".to_owned());
    m.insert("LOGIN_PASS".to_owned(), "".to_owned());
    m.insert("LOGIN_PROMPT".to_owned(), "".to_owned());
    m.insert("RELAY_PORT".to_owned(), "0".to_owned());
    m.insert("RELAY_IP".to_owned(), "".to_owned());
    m.insert("RESET_CHANNEL".to_owned(), "0".to_owned());
    m.insert("MASKROM_CHANNEL".to_owned(), "0".to_owned());
    m.insert("RECOVERY_CHANNEL".to_owned(), "0".to_owned());
    m.insert("DEV_CTL".to_owned(), "".to_owned());
    m.insert("HANG_TIMEOUT".to_owned(), "60".to_owned());
    m.insert("HANG_HYSTERESIS".to_owned(), "3".to_owned());
    m.insert("MAX_ARCHIVED_LOGS".to_owned(), "10".to_owned());
    m.insert("MAX_LOG_FILE_SIZE".to_owned(), "100".to_owned());
    m.insert("DUT_DIR".to_owned(), ".dut-serial".to_owned());
    m.insert("UBOOT_INTERRUPT_STRATEGY".to_owned(), "lava".to_owned());
    m.insert("UBOOT_INTERRUPT_CHAR".to_owned(), "ctrl_c".to_owned());
    m.insert("LOCK_DIR".to_owned(), "/tmp/debug-console/locks".to_owned());
    m.insert("REFERENCE_LOG".to_owned(), "".to_owned());
    m.insert("FLASH_LOADER_CMD".to_owned(), "".to_owned());
    m.insert("FLASH_LIST_DEVICES_CMD".to_owned(), "".to_owned());
    m.insert("RESET_TIME_MS".to_owned(), "".to_owned());
    m.insert("LEARNER_STAGE_THRESHOLD".to_owned(), "".to_owned());
    m.insert("LEARNER_CRASH_THRESHOLD".to_owned(), "".to_owned());
    m
}

// ── Reading values ──────────────────────────────────────────────────────────

/// The text of a key; empty where it has none.
pub open spec fn lookup(m: Values, key: Seq<char>) -> Seq<char> {
    if m.contains_key(key) {
        m[key]
    } else {
        Seq::empty()
    }
}

/// The first of two texts that is not empty.
pub open spec fn first_text(a: Seq<char>, b: Seq<char>) -> Seq<char> {
    if a.len() > 0 {
        a
    } else {
        b
    }
}

/// The number of a key; a default where its text is none up to `max`.
pub open spec fn number(m: Values, key: Seq<char>, max: nat, default: nat) -> nat {
    match parse_unsigned(lookup(m, key), max) {
        Some(n) => n,
        None => default,
    }
}

/// At least three seconds, in milliseconds.
pub open spec fn at_least_3000(n: nat) -> nat {
    if n < 3000 {
        3000
    } else {
        n
    }
}

fn read_text(m: &ConfigMap, key: &str) -> (r: String)
    ensures
        r@ == lookup(m@, key@),
{
    match m.get(key) {
        Some(s) => s.clone(),
        None => String::new(),
    }
}

fn read_number(m: &ConfigMap, key: &str, max: u64, default: u64) -> (r: u64)
    requires
        default <= max,
    ensures
        r == number(m@, key@, max as nat, default as nat),
        r <= max,
{
    let text = read_text(m, key);
    match parse_uint(&text, max) {
        Some(n) => n,
        None => default,
    }
}

fn nonempty_or(a: String, b: &str) -> (r: String)
    ensures
        r@ == first_text(a@, b@),
{
    if a.as_str().is_empty() {
        b.to_owned()
    } else {
        a
    }
}

/// A hexadecimal digit.
pub open spec fn is_hex(c: char) -> bool {
    '0' <= c <= '9' || 'a' <= c <= 'f' || 'A' <= c <= 'F'
}

/// The value of a hexadecimal digit.
pub open spec fn hex_digit(c: char) -> nat {
    (if '0' <= c <= '9' {
        c as u32 - '0' as u32
    } else if 'a' <= c <= 'f' {
        c as u32 - 'a' as u32 + 10
    } else {
        c as u32 - 'A' as u32 + 10
    }) as nat
}

/// The number written by hexadecimal digits.
pub open spec fn hex_value(s: Seq<char>) -> nat
    decreases s.len(),
{
    if s.len() == 0 {
        0
    } else {
        hex_value(s.drop_last()) * 16 + hex_digit(s.last())
    }
}

/// The byte written by hexadecimal digits.
pub open spec fn hex_digits_byte(d: Seq<char>) -> Option<nat> {
    if d.len() > 0 && (forall|i: int| 0 <= i < d.len() ==> is_hex(#[trigger] d[i])) && hex_value(d)
        <= 255 {
        Some(hex_value(d))
    } else {
        None
    }
}

/// The byte written in hexadecimal, with or without a plus sign.
pub open spec fn parse_hex_byte(s: Seq<char>) -> Option<nat> {
    let d = if s.len() > 0 && s[0] == '+' {
        s.subrange(1, s.len() as int)
    } else {
        s
    };
    hex_digits_byte(d)
}

proof fn lemma_hex_grows(s: Seq<char>, k: int)
    requires
        0 <= k <= s.len(),
    ensures
        hex_value(s.subrange(0, k)) <= hex_value(s),
    decreases s.len(),
{
    if k == s.len() {
        assert(s.subrange(0, k) =~= s);
    } else {
        lemma_hex_grows(s.drop_last(), k);
        assert(s.drop_last().subrange(0, k) =~= s.subrange(0, k));
    }
}

fn read_hex_byte(v: &[char]) -> (r: Option<u8>)
    ensures
        match r {
            Some(b) => parse_hex_byte(v@) == Some(b as nat),
            None => parse_hex_byte(v@) is None,
        },
{
    let from: usize = if v.len() > 0 && v[0] == '+' {
        1
    } else {
        0
    };
    let ghost d = v@.subrange(from as int, v@.len() as int);
    assert(from == 0 ==> d =~= v@);
    if v.len() == from {
        return None;
    }
    let mut n: u32 = 0;
    let mut i: usize = from;
    assert(d.subrange(0, 0) =~= Seq::<char>::empty());
    while i < v.len()
        invariant
            from <= i <= v@.len(),
            d == v@.subrange(from as int, v@.len() as int),
            forall|j: int| 0 <= j < i - from ==> is_hex(#[trigger] d[j]),
            n == hex_value(d.subrange(0, i - from)),
            n <= 255,
            parse_hex_byte(v@) == hex_digits_byte(d),
        decreases v@.len() - i,
    {
        let c: char = v[i];
        assert(d[i - from] == c);
        let x: u32 = if '0' <= c && c <= '9' {
            c as u32 - 48
        } else if 'a' <= c && c <= 'f' {
            c as u32 - 97 + 10
        } else if 'A' <= c && c <= 'F' {
            c as u32 - 65 + 10
        } else {
            return None;
        };
        n = n * 16 + x;
        assert(d.subrange(0, i - from + 1).drop_last() =~= d.subrange(0, i - from));
        if n > 255 {
            proof {
                lemma_hex_grows(d, i - from + 1);
            }
            return None;
        }
        i = i + 1;
    }
    assert(d.subrange(0, d.len() as int) =~= d);
    Some(n as u8)
}

/// The trimmed pieces that are not empty, in order.
pub open spec fn nonblank(ps: Seq<Seq<char>>) -> Seq<Seq<char>>
    decreases ps.len(),
{
    if ps.len() == 0 {
        Seq::empty()
    } else if trim(ps.last()).len() > 0 {
        nonblank(ps.drop_last()).push(trim(ps.last()))
    } else {
        nonblank(ps.drop_last())
    }
}

fn nonblank_pieces(s: &str, sep: char) -> (r: Vec<String>)
    ensures
        texts(r@) == nonblank(pieces(s@, sep)),
{
    let ps = split_text(s, sep);
    let ghost all = texts(ps@);
    let mut r: Vec<String> = Vec::new();
    let mut i: usize = 0;
    assert(texts(r@) =~= nonblank(all.subrange(0, 0)));
    while i < ps.len()
        invariant
            i <= ps@.len(),
            all == texts(ps@),
            texts(r@) == nonblank(all.subrange(0, i as int)),
        decreases ps@.len() - i,
    {
        let ghost t = all.subrange(0, i + 1);
        assert(t.drop_last() =~= all.subrange(0, i as int));
        assert(t.last() == ps@[i as int]@);
        let piece = trim_text(&ps[i]);
        assert(piece@ == trim(t.last()));
        if !piece.as_str().is_empty() {
            let ghost before = r@;
            r.push(piece);
            assert(texts(r@) =~= texts(before).push(trim(t.last())));
        }
        i = i + 1;
    }
    assert(all.subrange(0, all.len() as int) =~= all);
    r
}

/// The crash patterns that hold where none are configured.
pub const DEFAULT_CRASH_PATTERNS: &'static str = "Kernel panic\nBUG:\nOops:\nUnable to handle kernel\nSegmentation fault\n---[ end trace\npanic - not syncing";

/// Where a configuration came from.
#[derive(Debug, Clone, Copy, PartialEq, Eq, Structural)]
pub enum ConfigFormat {
    Toml,
    /// No file in a known format.
    Absent,
}

/// A loaded configuration.
pub struct Config {
    pub values: ConfigMap,
    pub config_path: Option<String>,
    pub project_dir: Option<String>,
    pub format: ConfigFormat,
}

/// The host's address.
pub open spec fn host_ip(m: Values) -> Seq<char> {
    lookup(m, "DEV_HOST_IP"@)
}

/// The serial port, or 2000 where it is neither a device nor a port number.
pub open spec fn serial_target_of(m: Values) -> Seq<char> {
    let v = lookup(m, "SERIAL_PORT"@);
    if v.len() > 0 && (is_at(v, "/dev/"@, 0) || is_at(v, "COM"@, 0) || parse_unsigned(
        v,
        u16::MAX as nat,
    ) is Some) {
        v
    } else {
        "2000"@
    }
}

/// The byte that stops the boot loader: "ctrl_c", one ASCII character, or a
/// number; 3 where it is none of these.
pub open spec fn interrupt_byte(v: Seq<char>) -> nat {
    if v == "ctrl_c"@ || v == "0x03"@ {
        3
    } else if v.len() == 1 && (v[0] as u32) < 128 {
        (v[0] as u32) as nat
    } else if is_at(v, "0x"@, 0) {
        match parse_hex_byte(v.subrange(2, v.len() as int)) {
            Some(b) => b,
            None => 3,
        }
    } else {
        match parse_unsigned(v, 255) {
            Some(b) => b,
            None => 3,
        }
    }
}

impl Config {
    /// The text of a key; empty where it has none.
    pub fn get(&self, key: &str) -> (r: &str)
        ensures
            r@ == lookup(self.values@, key@),
    {
        match self.values.get(key) {
            Some(s) => s.as_str(),
            None => {
                proof {
                    reveal_strlit("");
                    assert(""@ =~= Seq::<char>::empty());
                }
                ""
            },
        }
    }

    /// The whole number of a key; 0 where it has none.
    pub fn get_int(&self, key: &str) -> (r: i64)
        ensures
            r == (match parse_signed(
                lookup(self.values@, key@),
                i64::MIN as int,
                i64::MAX as int,
            ) {
                Some(n) => n,
                None => 0,
            }),
    {
        match parse_int(self.get(key), i64::MAX) {
            Some(n) => n,
            None => 0,
        }
    }

    /// The text of a key, or a default where it is empty.
    pub fn get_str_or(&self, key: &str, default: &str) -> (r: String)
        ensures
            r@ == first_text(lookup(self.values@, key@), default@),
    {
        let v = self.get(key);
        if v.is_empty() {
            default.to_owned()
        } else {
            v.to_owned()
        }
    }

    /// The host's address.
    pub fn dev_host_ip(&self) -> (r: String)
        ensures
            r@ == host_ip(self.values@),
    {
        self.get("DEV_HOST_IP").to_owned()
    }

    /// The serial line's address: its own, or the host's.
    pub fn serial_ip(&self) -> (r: String)
        ensures
            r@ == first_text(lookup(self.values@, "SERIAL_IP"@), host_ip(self.values@)),
    {
        let host = self.dev_host_ip();
        self.get_str_or("SERIAL_IP", &host)
    }

    /// The serial port, or 2000 where it is neither a device nor a port number.
    pub fn serial_target(&self) -> (r: String)
        ensures
            r@ == serial_target_of(self.values@),
    {
        let v = self.get("SERIAL_PORT");
        if v.is_empty() {
            return "2000".to_owned();
        }
        if starts_with_text(v, "/dev/") || starts_with_text(v, "COM") {
            return v.to_owned();
        }
        if parse_uint(v, u16::MAX as u64).is_some() {
            return v.to_owned();
        }
        "2000".to_owned()
    }

    /// The relay board's address: its own, or the host's.
    pub fn relay_ip(&self) -> (r: String)
        ensures
            r@ == first_text(lookup(self.values@, "RELAY_IP"@), host_ip(self.values@)),
    {
        let host = self.dev_host_ip();
        self.get_str_or("RELAY_IP", &host)
    }

    /// The relay board's port; 0 where there is none.
    pub fn relay_port(&self) -> (r: u16)
        ensures
            r == number(self.values@, "RELAY_PORT"@, u16::MAX as nat, 0),
    {
        read_number(&self.values, "RELAY_PORT", u16::MAX as u64, 0) as u16
    }

    /// The reset channel; 0 where there is none.
    pub fn reset_channel(&self) -> (r: u8)
        ensures
            r == number(self.values@, "RESET_CHANNEL"@, u8::MAX as nat, 0),
    {
        read_number(&self.values, "RESET_CHANNEL", u8::MAX as u64, 0) as u8
    }

    /// The MASKROM channel; 0 where there is none.
    pub fn maskrom_channel(&self) -> (r: u8)
        ensures
            r == number(self.values@, "MASKROM_CHANNEL"@, u8::MAX as nat, 0),
    {
        read_number(&self.values, "MASKROM_CHANNEL", u8::MAX as u64, 0) as u8
    }

    /// The recovery channel; 0 where there is none.
    pub fn recovery_channel(&self) -> (r: u8)
        ensures
            r == number(self.values@, "RECOVERY_CHANNEL"@, u8::MAX as nat, 0),
    {
        read_number(&self.values, "RECOVERY_CHANNEL", u8::MAX as u64, 0) as u8
    }

    /// The power channel; 0 where there is none.
    pub fn power_channel(&self) -> (r: u8)
        ensures
            r == number(self.values@, "POWER_CHANNEL"@, u8::MAX as nat, 0),
    {
        read_number(&self.values, "POWER_CHANNEL", u8::MAX as u64, 0) as u8
    }

    /// The seconds of silence that suggest a hang.
    pub fn hang_timeout(&self) -> (r: u64)
        ensures
            r == number(self.values@, "HANG_TIMEOUT"@, u64::MAX as nat, 60),
    {
        read_number(&self.values, "HANG_TIMEOUT", u64::MAX as u64, 60)
    }

    /// The probes that confirm a hang.
    pub fn hang_hysteresis(&self) -> (r: u32)
        ensures
            r == number(self.values@, "HANG_HYSTERESIS"@, u32::MAX as nat, 3),
    {
        read_number(&self.values, "HANG_HYSTERESIS", u32::MAX as u64, 3) as u32
    }

    /// The logs that are kept.
    pub fn max_archived_logs(&self) -> (r: usize)
        ensures
            r == number(self.values@, "MAX_ARCHIVED_LOGS"@, usize::MAX as nat, 10),
    {
        read_number(&self.values, "MAX_ARCHIVED_LOGS", usize::MAX as u64, 10) as usize
    }

    /// The size at which a log is rotated, in megabytes.
    pub fn max_log_file_size_mb(&self) -> (r: u64)
        ensures
            r == number(self.values@, "MAX_LOG_FILE_SIZE"@, u64::MAX as nat, 100),
    {
        read_number(&self.values, "MAX_LOG_FILE_SIZE", u64::MAX as u64, 100)
    }

    /// The shortest reset pulse, in milliseconds; 0 where it is not configured.
    pub fn reset_time_ms(&self) -> (r: u64)
        ensures
            r == number(self.values@, "RESET_TIME_MS"@, u64::MAX as nat, 0),
    {
        read_number(&self.values, "RESET_TIME_MS", u64::MAX as u64, 0)
    }

    /// How long the power stays off, in milliseconds: at least three seconds.
    pub fn power_off_time_ms(&self) -> (r: u64)
        ensures
            r == at_least_3000(number(self.values@, "POWER_OFF_TIME_MS"@, u64::MAX as nat, 3000)),
    {
        let n: u64 = read_number(&self.values, "POWER_OFF_TIME_MS", u64::MAX, 3000);
        if n < 3000 {
            3000
        } else {
            n
        }
    }

    /// The byte that stops the boot loader.
    pub fn uboot_interrupt_char(&self) -> (r: u8)
        ensures
            r == interrupt_byte(lookup(self.values@, "UBOOT_INTERRUPT_CHAR"@)),
    {
        let v = self.get("UBOOT_INTERRUPT_CHAR");
        if eq_text(v, "ctrl_c") || eq_text(v, "0x03") {
            return 3;
        }
        let cs = chars_of(v);
        if cs.len() == 1 && (cs[0] as u32) < 128 {
            return (cs[0] as u32) as u8;
        }
        if starts_with_text(v, "0x") {
            proof {
                reveal_strlit("0x");
            }
            match read_hex_byte(&cs[2..cs.len()]) {
                Some(b) => b,
                None => 3,
            }
        } else {
            match parse_uint(v, 255) {
                Some(b) => b as u8,
                None => 3,
            }
        }
    }

    /// The directory of logs and state.
    pub fn dut_dir(&self) -> (r: String)
        ensures
            r@ == first_text(lookup(self.values@, "DUT_DIR"@), ".dut-serial"@),
    {
        self.get_str_or("DUT_DIR", ".dut-serial")
    }

    /// The directory of locks.
    pub fn lock_dir(&self) -> (r: String)
        ensures
            r@ == first_text(lookup(self.values@, "LOCK_DIR"@), "/tmp/debug-console/locks"@),
    {
        self.get_str_or("LOCK_DIR", "/tmp/debug-console/locks")
    }

    /// The user to log in as.
    pub fn login_user(&self) -> (r: String)
        ensures
            r@ == first_text(lookup(self.values@, "LOGIN_USER"@), "root"@),
    {
        self.get_str_or("LOGIN_USER", "root")
    }

    /// The password to log in with.
    pub fn login_pass(&self) -> (r: String)
        ensures
            r@ == lookup(self.values@, "LOGIN_PASS"@),
    {
        self.get("LOGIN_PASS").to_owned()
    }

    /// The pattern of the login prompt; empty where the default holds.
    pub fn login_prompt(&self) -> (r: String)
        ensures
            r@ == lookup(self.values@, "LOGIN_PROMPT"@),
    {
        self.get("LOGIN_PROMPT").to_owned()
    }

    /// The path of the reference boot log.
    pub fn reference_log(&self) -> (r: String)
        ensures
            r@ == lookup(self.values@, "REFERENCE_LOG"@),
    {
        self.get("REFERENCE_LOG").to_owned()
    }

    /// The external control program.
    pub fn dev_ctl(&self) -> (r: String)
        ensures
            r@ == lookup(self.values@, "DEV_CTL"@),
    {
        self.get("DEV_CTL").to_owned()
    }

    /// The patterns that mark a crash in a boot log, one per line.
    pub fn crash_patterns(&self) -> (r: Vec<String>)
        ensures
            texts(r@) == nonblank(
                pieces(
                    first_text(lookup(self.values@, "CRASH_PATTERNS"@), DEFAULT_CRASH_PATTERNS@),
                    '\n',
                ),
            ),
    {
        let v = self.get_str_or("CRASH_PATTERNS", DEFAULT_CRASH_PATTERNS);
        nonblank_pieces(&v, '\n')
    }

    /// The aliases of the configured DUTs.
    pub fn dut_aliases(&self) -> (r: Vec<String>)
        ensures
            texts(r@) == nonblank(pieces(lookup(self.values@, "DUT_ALIASES"@), ',')),
    {
        nonblank_pieces(self.get("DUT_ALIASES"), ',')
    }
}

// ── Devices under test ──────────────────────────────────────────────────────

/// The texts of a `DevHostConfig`.
pub struct HostView {
    pub alias: Seq<char>,
    pub ip: Seq<char>,
    pub user: Seq<char>,
    pub pass: Seq<char>,
}

/// A host that boards hang on.
pub struct DevHostConfig {
    pub alias: String,
    pub ip: String,
    pub user: String,
    pub pass: String,
}

impl View for DevHostConfig {
    type V = HostView;

    open spec fn view(&self) -> HostView {
        HostView { alias: self.alias@, ip: self.ip@, user: self.user@, pass: self.pass@ }
    }
}

impl DevHostConfig {
    /// A copy of the host.
    pub fn copied(&self) -> (r: Self)
        ensures
            r@ == self@,
    {
        DevHostConfig {
            alias: self.alias.clone(),
            ip: self.ip.clone(),
            user: self.user.clone(),
            pass: self.pass.clone(),
        }
    }
}

/// The hosts of a list.
pub open spec fn hosts_of(hosts: Seq<DevHostConfig>) -> Seq<HostView> {
    hosts.map_values(|h: DevHostConfig| h@)
}

/// The first host of that alias, at or after an index.
pub open spec fn host_named(hosts: Seq<HostView>, alias: Seq<char>, from: int) -> Option<HostView>
    decreases hosts.len() - from,
{
    if from < 0 || from >= hosts.len() {
        None
    } else if hosts[from].alias == alias {
        Some(hosts[from])
    } else {
        host_named(hosts, alias, from + 1)
    }
}

/// The host that a DUT hangs on: the one it names, else the first, else one
/// without an address.
pub open spec fn resolved_host(hosts: Seq<HostView>, alias: Option<Seq<char>>) -> HostView {
    let named = match alias {
        Some(a) => host_named(hosts, a, 0),
        None => None,
    };
    match named {
        Some(h) => h,
        None => if hosts.len() > 0 {
            hosts[0]
        } else {
            HostView {
                alias: "default"@,
                ip: Seq::empty(),
                user: Seq::empty(),
                pass: Seq::empty(),
            }
        },
    }
}

/// The host that a DUT hangs on.
pub fn resolve_dev_host(dev_hosts: &[DevHostConfig], alias: Option<&str>) -> (r: DevHostConfig)
    ensures
        r@ == resolved_host(
            hosts_of(dev_hosts@),
            match alias {
                Some(a) => Some(a@),
                None => None,
            },
        ),
{
    let ghost hosts = hosts_of(dev_hosts@);
    if let Some(wanted) = alias {
        let mut i: usize = 0;
        while i < dev_hosts.len()
            invariant
                i <= dev_hosts.len(),
                hosts == hosts_of(dev_hosts@),
                alias == Some(wanted),
                host_named(hosts, wanted@, 0) == host_named(hosts, wanted@, i as int),
            decreases dev_hosts.len() - i,
        {
            assert(hosts[i as int] == dev_hosts@[i as int]@);
            if eq_text(&dev_hosts[i].alias, wanted) {
                return dev_hosts[i].copied();
            }
            i = i + 1;
        }
    }
    if dev_hosts.len() > 0 {
        assert(hosts[0] == dev_hosts@[0]@);
        dev_hosts[0].copied()
    } else {
        DevHostConfig {
            alias: "default".to_owned(),
            ip: String::new(),
            user: String::new(),
            pass: String::new(),
        }
    }
}

/// What a `DutConfig` says.
pub struct DutView {
    pub alias: Seq<char>,
    pub dev_host_alias: Seq<char>,
    pub dev_host_ip: Seq<char>,
    pub dev_host_user: Seq<char>,
    pub dev_host_pass: Seq<char>,
    pub serial_port: Seq<char>,
    pub serial_ip: Seq<char>,
    pub relay_ip: Seq<char>,
    pub relay_type: Seq<char>,
    pub relay_port: u16,
    pub reset_ch: u8,
    pub maskrom_ch: u8,
    pub recovery_ch: u8,
    pub power_ch: u8,
    pub power_off_time_ms: u64,
    pub reference_log: Seq<char>,
    pub dut_dir: Seq<char>,
    pub login_user: Seq<char>,
    pub login_pass: Seq<char>,
    pub learner_stage_threshold: Seq<char>,
    pub learner_crash_threshold: Seq<char>,
    pub crash_patterns: Seq<Seq<char>>,
}

/// One DUT. A learner threshold is a positive number in decimal, or empty.
pub struct DutConfig {
    pub alias: String,
    pub dev_host_alias: String,
    pub dev_host_ip: String,
    pub dev_host_user: String,
    pub dev_host_pass: String,
    pub serial_port: String,
    pub serial_ip: String,
    pub relay_ip: String,
    pub relay_type: String,
    pub relay_port: u16,
    pub reset_ch: u8,
    pub maskrom_ch: u8,
    pub recovery_ch: u8,
    pub power_ch: u8,
    pub power_off_time_ms: u64,
    pub reference_log: String,
    pub dut_dir: String,
    pub login_user: String,
    pub login_pass: String,
    pub learner_stage_threshold: String,
    pub learner_crash_threshold: String,
    pub crash_patterns: Vec<String>,
}

impl View for DutConfig {
    type V = DutView;

    open spec fn view(&self) -> DutView {
        DutView {
            alias: self.alias@,
            dev_host_alias: self.dev_host_alias@,
            dev_host_ip: self.dev_host_ip@,
            dev_host_user: self.dev_host_user@,
            dev_host_pass: self.dev_host_pass@,
            serial_port: self.serial_port@,
            serial_ip: self.serial_ip@,
            relay_ip: self.relay_ip@,
            relay_type: self.relay_type@,
            relay_port: self.relay_port,
            reset_ch: self.reset_ch,
            maskrom_ch: self.maskrom_ch,
            recovery_ch: self.recovery_ch,
            power_ch: self.power_ch,
            power_off_time_ms: self.power_off_time_ms,
            reference_log: self.reference_log@,
            dut_dir: self.dut_dir@,
            login_user: self.login_user@,
            login_pass: self.login_pass@,
            learner_stage_threshold: self.learner_stage_threshold@,
            learner_crash_threshold: self.learner_crash_threshold@,
            crash_patterns: texts(self.crash_patterns@),
        }
    }
}

impl DutView {
    /// The global map with what the DUT sets.
    pub open spec fn onto(self, m: Values) -> Values {
        let m = m.insert("DUT_ALIAS"@, self.alias);
        let m = put_text(m, "DEV_HOST_IP"@, self.dev_host_ip);
        let m = put_text(m, "DEV_HOST_USER"@, self.dev_host_user);
        let m = put_text(m, "DEV_HOST_PASS"@, self.dev_host_pass);
        let m = put_text(m, "SERIAL_PORT"@, self.serial_port);
        let m = put_text(m, "SERIAL_IP"@, self.serial_ip);
        let m = put_text(m, "RELAY_IP"@, self.relay_ip);
        let m = put_text(m, "RELAY_TYPE"@, self.relay_type);
        let m = put_number(m, "RELAY_PORT"@, self.relay_port as nat);
        let m = put_number(m, "RESET_CHANNEL"@, self.reset_ch as nat);
        let m = put_number(m, "MASKROM_CHANNEL"@, self.maskrom_ch as nat);
        let m = put_number(m, "RECOVERY_CHANNEL"@, self.recovery_ch as nat);
        let m = put_number(m, "POWER_CHANNEL"@, self.power_ch as nat);
        let m = put_number(m, "POWER_OFF_TIME_MS"@, self.power_off_time_ms as nat);
        let m = put_text(m, "REFERENCE_LOG"@, self.reference_log);
        let m = put_text(m, "DUT_DIR"@, self.dut_dir);
        let m = put_text(m, "LOGIN_USER"@, self.login_user);
        let m = put_text(m, "LOGIN_PASS"@, self.login_pass);
        let m = put_text(m, "LEARNER_STAGE_THRESHOLD"@, self.learner_stage_threshold);
        let m = put_text(m, "LEARNER_CRASH_THRESHOLD"@, self.learner_crash_threshold);
        if self.crash_patterns.len() > 0 {
            m.insert("CRASH_PATTERNS"@, joined(self.crash_patterns, "\n"@))
        } else {
            m
        }
    }
}

impl DutConfig {
    /// The global values with those of the DUT.
    pub fn to_config_map(&self, global: &ConfigMap) -> (cfg: ConfigMap)
        ensures
            cfg@ == self@.onto(global@),
    {
        let mut cfg = global.copied();
        cfg.insert("DUT_ALIAS".to_owned(), self.alias.clone());
        set_text(&mut cfg, "DEV_HOST_IP", &self.dev_host_ip);
        set_text(&mut cfg, "DEV_HOST_USER", &self.dev_host_user);
        set_text(&mut cfg, "DEV_HOST_PASS", &self.dev_host_pass);
        set_text(&mut cfg, "SERIAL_PORT", &self.serial_port);
        set_text(&mut cfg, "SERIAL_IP", &self.serial_ip);
        set_text(&mut cfg, "RELAY_IP", &self.relay_ip);
        set_text(&mut cfg, "RELAY_TYPE", &self.relay_type);
        set_number(&mut cfg, "RELAY_PORT", self.relay_port as u64);
        set_number(&mut cfg, "RESET_CHANNEL", self.reset_ch as u64);
        set_number(&mut cfg, "MASKROM_CHANNEL", self.maskrom_ch as u64);
        set_number(&mut cfg, "RECOVERY_CHANNEL", self.recovery_ch as u64);
        set_number(&mut cfg, "POWER_CHANNEL", self.power_ch as u64);
        set_number(&mut cfg, "POWER_OFF_TIME_MS", self.power_off_time_ms);
        set_text(&mut cfg, "REFERENCE_LOG", &self.reference_log);
        set_text(&mut cfg, "DUT_DIR", &self.dut_dir);
        set_text(&mut cfg, "LOGIN_USER", &self.login_user);
        set_text(&mut cfg, "LOGIN_PASS", &self.login_pass);
        set_text(&mut cfg, "LEARNER_STAGE_THRESHOLD", &self.learner_stage_threshold);
        set_text(&mut cfg, "LEARNER_CRASH_THRESHOLD", &self.learner_crash_threshold);
        if self.crash_patterns.len() > 0 {
            cfg.insert("CRASH_PATTERNS".to_owned(), join_texts(&self.crash_patterns, "\n"));
        }
        assert(texts(self.crash_patterns@).len() == self.crash_patterns@.len());
        cfg
    }
}

/// The one DUT of a file that lists none.
pub open spec fn default_dut(global: Values, hosts: Seq<HostView>) -> DutView {
    let dh = resolved_host(hosts, None);
    DutView {
        alias: if global.contains_key("DUT_ALIAS"@) {
            global["DUT_ALIAS"@]
        } else {
            "default"@
        },
        dev_host_alias: dh.alias,
        dev_host_ip: first_text(dh.ip, lookup(global, "DEV_HOST_IP"@)),
        dev_host_user: first_text(dh.user, lookup(global, "DEV_HOST_USER"@)),
        dev_host_pass: first_text(dh.pass, lookup(global, "DEV_HOST_PASS"@)),
        serial_port: lookup(global, "SERIAL_PORT"@),
        serial_ip: lookup(global, "SERIAL_IP"@),
        relay_ip: lookup(global, "RELAY_IP"@),
        relay_type: if global.contains_key("RELAY_TYPE"@) {
            global["RELAY_TYPE"@]
        } else {
            "usb-relay"@
        },
        relay_port: number(global, "RELAY_PORT"@, u16::MAX as nat, 0) as u16,
        reset_ch: number(global, "RESET_CHANNEL"@, u8::MAX as nat, 0) as u8,
        maskrom_ch: number(global, "MASKROM_CHANNEL"@, u8::MAX as nat, 0) as u8,
        recovery_ch: number(global, "RECOVERY_CHANNEL"@, u8::MAX as nat, 0) as u8,
        power_ch: number(global, "POWER_CHANNEL"@, u8::MAX as nat, 0) as u8,
        power_off_time_ms: at_least_3000(
            number(global, "POWER_OFF_TIME_MS"@, u64::MAX as nat, 3000),
        ) as u64,
        reference_log: lookup(global, "REFERENCE_LOG"@),
        dut_dir: if global.contains_key("DUT_DIR"@) {
            global["DUT_DIR"@]
        } else {
            ".dut-serial"@
        },
        login_user: lookup(global, "LOGIN_USER"@),
        login_pass: lookup(global, "LOGIN_PASS"@),
        learner_stage_threshold: Seq::empty(),
        learner_crash_threshold: Seq::empty(),
        crash_patterns: Seq::empty(),
    }
}

fn read_or(m: &ConfigMap, key: &str, default: &str) -> (r: String)
    ensures
        r@ == (if m@.contains_key(key@) {
            m@[key@]
        } else {
            default@
        }),
{
    match m.get(key) {
        Some(s) => s.clone(),
        None => default.to_owned(),
    }
}

/// The one DUT of a file that lists none.
pub fn default_dut_config(global: &ConfigMap, dev_hosts: &[DevHostConfig]) -> (r: DutConfig)
    ensures
        r@ == default_dut(global@, hosts_of(dev_hosts@)),
{
    let alias = read_or(global, "DUT_ALIAS", "default");
    let dut_dir = read_or(global, "DUT_DIR", ".dut-serial");
    let dh = resolve_dev_host(dev_hosts, None);
    let off: u64 = read_number(global, "POWER_OFF_TIME_MS", u64::MAX, 3000);
    let r = DutConfig {
        alias,
        dev_host_alias: dh.alias,
        dev_host_ip: nonempty_or(dh.ip, &read_text(global, "DEV_HOST_IP")),
        dev_host_user: nonempty_or(dh.user, &read_text(global, "DEV_HOST_USER")),
        dev_host_pass: nonempty_or(dh.pass, &read_text(global, "DEV_HOST_PASS")),
        serial_port: read_text(global, "SERIAL_PORT"),
        serial_ip: read_text(global, "SERIAL_IP"),
        relay_ip: read_text(global, "RELAY_IP"),
        relay_type: read_or(global, "RELAY_TYPE", "usb-relay"),
        relay_port: read_number(global, "RELAY_PORT", u16::MAX as u64, 0) as u16,
        reset_ch: read_number(global, "RESET_CHANNEL", u8::MAX as u64, 0) as u8,
        maskrom_ch: read_number(global, "MASKROM_CHANNEL", u8::MAX as u64, 0) as u8,
        recovery_ch: read_number(global, "RECOVERY_CHANNEL", u8::MAX as u64, 0) as u8,
        power_ch: read_number(global, "POWER_CHANNEL", u8::MAX as u64, 0) as u8,
        power_off_time_ms: if off < 3000 {
            3000
        } else {
            off
        },
        reference_log: read_text(global, "REFERENCE_LOG"),
        dut_dir,
        login_user: read_text(global, "LOGIN_USER"),
        login_pass: read_text(global, "LOGIN_PASS"),
        learner_stage_threshold: String::new(),
        learner_crash_threshold: String::new(),
        crash_patterns: Vec::new(),
    };
    assert(r@.crash_patterns =~= Seq::<Seq<char>>::empty());
    r
}

/// A number, or 0 where there is none.
pub open spec fn or_zero(o: Option<u8>) -> u8 {
    match o {
        Some(n) => n,
        None => 0,
    }
}

/// The DUT that an entry of a file describes. What the entry leaves open comes
/// from the global values or from the host.
pub open spec fn dut_of(d: DutToml, global: Values, hosts: Seq<HostView>) -> DutView {
    let none = Seq::<char>::empty();
    let alias = or_text(d.alias, "unnamed"@);
    let dut_dir = or_text(d.dut_dir, ".dut-serial/"@ + alias);
    let dh = resolved_host(hosts, text_option(d.dev_host));
    let (port, serial_ip) = match d.serial {
        Some(s) => (
            match value_option(s.port) {
                Some(p) => p,
                None => none,
            },
            or_text(s.ip, none),
        ),
        None => (none, none),
    };
    let (reset, power, relay_port) = match d.relay {
        Some(r) => (
            or_zero(first_of(r.reset_ch, r.reset_channel)),
            or_zero(first_of(r.power_ch, r.power_channel)),
            match r.port {
                Some(p) => p,
                None => 0,
            },
        ),
        None => (0, 0, 0),
    };
    let log = match d.monitor {
        Some(m) => or_text(m.reference_log, none),
        None => none,
    };
    DutView {
        alias,
        dev_host_alias: dh.alias,
        dev_host_ip: dh.ip,
        dev_host_user: dh.user,
        dev_host_pass: dh.pass,
        serial_port: first_text(port, lookup(global, "SERIAL_PORT"@)),
        serial_ip: first_text(serial_ip, dh.ip),
        relay_ip: first_text(
            first_text(
                match d.relay {
                    Some(r) => or_text(r.ip, none),
                    None => none,
                },
                lookup(global, "RELAY_IP"@),
            ),
            dh.ip,
        ),
        relay_type: match d.relay {
            Some(r) => or_text(r.relay_type, "usb-relay"@),
            None => "usb-relay"@,
        },
        relay_port: if relay_port == 0 {
            number(global, "RELAY_PORT"@, u16::MAX as nat, 0) as u16
        } else {
            relay_port
        },
        reset_ch: if reset == 0 {
            number(global, "RESET_CHANNEL"@, u8::MAX as nat, 0) as u8
        } else {
            reset
        },
        maskrom_ch: match d.relay {
            Some(r) => or_zero(first_of(r.maskrom_ch, r.maskrom_channel)),
            None => 0,
        },
        recovery_ch: match d.relay {
            Some(r) => or_zero(first_of(r.recovery_ch, r.recovery_channel)),
            None => 0,
        },
        power_ch: if power == 0 {
            number(global, "POWER_CHANNEL"@, u8::MAX as nat, 0) as u8
        } else {
            power
        },
        power_off_time_ms: match d.relay {
            Some(r) => match r.power_off_time_ms {
                Some(n) => at_least_3000(n as nat) as u64,
                None => 3000,
            },
            None => 3000,
        },
        reference_log: first_text(
            first_text(log, or_text(d.reference_log, dut_dir + "/reference-boot.log"@)),
            lookup(global, "REFERENCE_LOG"@),
        ),
        dut_dir,
        login_user: match d.target {
            Some(t) => or_text(t.login_user, lookup(global, "LOGIN_USER"@)),
            None => lookup(global, "LOGIN_USER"@),
        },
        login_pass: match d.target {
            Some(t) => or_text(t.login_pass, lookup(global, "LOGIN_PASS"@)),
            None => lookup(global, "LOGIN_PASS"@),
        },
        learner_stage_threshold: match d.monitor {
            Some(m) => or_text(m.learner_stage_threshold, none),
            None => none,
        },
        learner_crash_threshold: match d.monitor {
            Some(m) => or_text(m.learner_crash_threshold, none),
            None => none,
        },
        crash_patterns: match d.monitor {
            Some(m) => match m.crash_patterns {
                Some(ps) => texts(ps@),
                None => Seq::empty(),
            },
            None => Seq::empty(),
        },
    }
}

fn text_or_empty(o: &Option<String>) -> (r: String)
    ensures
        r@ == or_text(*o, Seq::empty()),
{
    match o {
        Some(s) => s.clone(),
        None => String::new(),
    }
}

fn number_or_zero(o: Option<u8>) -> (r: u8)
    ensures
        r == or_zero(o),
{
    match o {
        Some(n) => n,
        None => 0,
    }
}

/// The DUT that an entry of a file describes.
pub fn dut_toml_to_config(
    dut: &DutToml,
    global: &ConfigMap,
    dev_hosts: &[DevHostConfig],
) -> (r: DutConfig)
    ensures
        r@ == dut_of(*dut, global@, hosts_of(dev_hosts@)),
{
    let alias = text_or(&dut.alias, "unnamed");
    let dut_dir = text_or(&dut.dut_dir, &cat(".dut-serial/", &alias));
    let dh = resolve_dev_host(
        dev_hosts,
        match &dut.dev_host {
            Some(s) => Some(s.as_str()),
            None => None,
        },
    );

    let mut serial_port = String::new();
    let mut serial_ip = String::new();
    if let Some(s) = &dut.serial {
        if let Some(v) = &s.port {
            serial_port = toml_value_to_string(v);
        }
        serial_ip = text_or_empty(&s.ip);
    }
    let serial_port = nonempty_or(serial_port, &read_text(global, "SERIAL_PORT"));
    let serial_ip = nonempty_or(serial_ip, &dh.ip);

    let mut relay_port: u16 = 0;
    let mut relay_ip = String::new();
    let mut relay_type = "usb-relay".to_owned();
    let mut reset_ch: u8 = 0;
    let mut maskrom_ch: u8 = 0;
    let mut recovery_ch: u8 = 0;
    let mut power_ch: u8 = 0;
    let mut power_off_time_ms: u64 = 3000;
    if let Some(r) = &dut.relay {
        relay_port = match r.port {
            Some(p) => p,
            None => 0,
        };
        relay_ip = text_or_empty(&r.ip);
        relay_type = text_or(&r.relay_type, "usb-relay");
        reset_ch = number_or_zero(first_number(r.reset_ch, r.reset_channel));
        maskrom_ch = number_or_zero(first_number(r.maskrom_ch, r.maskrom_channel));
        recovery_ch = number_or_zero(first_number(r.recovery_ch, r.recovery_channel));
        power_ch = number_or_zero(first_number(r.power_ch, r.power_channel));
        if let Some(n) = r.power_off_time_ms {
            if n > 3000 {
                power_off_time_ms = n;
            }
        }
    }
    if relay_port == 0 {
        relay_port = read_number(global, "RELAY_PORT", u16::MAX as u64, 0) as u16;
    }
    let relay_ip = nonempty_or(relay_ip, &read_text(global, "RELAY_IP"));
    let relay_ip = nonempty_or(relay_ip, &dh.ip);
    if reset_ch == 0 {
        reset_ch = read_number(global, "RESET_CHANNEL", u8::MAX as u64, 0) as u8;
    }
    if power_ch == 0 {
        power_ch = read_number(global, "POWER_CHANNEL", u8::MAX as u64, 0) as u8;
    }

    let mut learner_stage_threshold = String::new();
    let mut learner_crash_threshold = String::new();
    let mut crash_patterns: Vec<String> = Vec::new();
    assert(texts(crash_patterns@) =~= Seq::<Seq<char>>::empty());
    let mut reference_log = String::new();
    if let Some(m) = &dut.monitor {
        reference_log = text_or_empty(&m.reference_log);
        learner_stage_threshold = text_or_empty(&m.learner_stage_threshold);
        learner_crash_threshold = text_or_empty(&m.learner_crash_threshold);
        if let Some(ps) = &m.crash_patterns {
            crash_patterns = clone_texts(ps);
        }
    }
    let own_log = text_or(&dut.reference_log, &cat(&dut_dir, "/reference-boot.log"));
    let reference_log = nonempty_or(reference_log, &own_log);
    let reference_log = nonempty_or(reference_log, &read_text(global, "REFERENCE_LOG"));

    let mut login_user = read_text(global, "LOGIN_USER");
    let mut login_pass = read_text(global, "LOGIN_PASS");
    if let Some(t) = &dut.target {
        login_user = text_or(&t.login_user, &login_user);
        login_pass = text_or(&t.login_pass, &login_pass);
    }

    DutConfig {
        alias,
        dev_host_alias: dh.alias,
        dev_host_ip: dh.ip,
        dev_host_user: dh.user,
        dev_host_pass: dh.pass,
        serial_port,
        serial_ip,
        relay_ip,
        relay_type,
        relay_port,
        reset_ch,
        maskrom_ch,
        recovery_ch,
        power_ch,
        power_off_time_ms,
        reference_log,
        dut_dir,
        login_user,
        login_pass,
        learner_stage_threshold,
        learner_crash_threshold,
        crash_patterns,
    }
}

/// What the file says of a host.
pub open spec fn host_of(h: DevHostToml) -> HostView {
    HostView {
        alias: or_text(h.alias, Seq::empty()),
        ip: or_text(h.ip, Seq::empty()),
        user: or_text(h.user, Seq::empty()),
        pass: or_text(h.pass, Seq::empty()),
    }
}

/// The hosts that a file lists.
pub open spec fn file_hosts(t: TargetToml) -> Seq<HostView> {
    t.hosts().map_values(|h: DevHostToml| host_of(h))
}

/// The DUTs that a file describes: one for each entry, or one made of the global
/// values where there are no entries.
pub open spec fn file_duts(t: TargetToml) -> Seq<DutView> {
    match t.dut {
        Some(duts) => if duts@.len() > 0 {
            duts@.map_values(|d: DutToml| dut_of(d, t.values(), file_hosts(t)))
        } else {
            seq![default_dut(t.values(), file_hosts(t))]
        },
        None => seq![default_dut(t.values(), file_hosts(t))],
    }
}

/// What a list of DUTs says.
pub open spec fn duts_of(v: Seq<DutConfig>) -> Seq<DutView> {
    v.map_values(|d: DutConfig| d@)
}

fn read_host(h: &DevHostToml) -> (r: DevHostConfig)
    ensures
        r@ == host_of(*h),
{
    DevHostConfig {
        alias: text_or_empty(&h.alias),
        ip: text_or_empty(&h.ip),
        user: text_or_empty(&h.user),
        pass: text_or_empty(&h.pass),
    }
}

fn collect_hosts(t: &TargetToml) -> (r: Vec<DevHostConfig>)
    ensures
        hosts_of(r@) == file_hosts(*t),
{
    let mut r: Vec<DevHostConfig> = Vec::new();
    if let Some(hosts) = &t.dev_hosts {
        if hosts.len() > 0 {
            let mut i: usize = 0;
            while i < hosts.len()
                invariant
                    i <= hosts@.len(),
                    t.hosts() == hosts@,
                    hosts_of(r@) =~= file_hosts(*t).subrange(0, i as int),
                decreases hosts@.len() - i,
            {
                let h = read_host(&hosts[i]);
                let ghost hv = h@;
                assert(hv == file_hosts(*t)[i as int]);
                let ghost before = r@;
                r.push(h);
                assert(hosts_of(r@) =~= hosts_of(before).push(hv));
                i = i + 1;
            }
            assert(hosts_of(r@) =~= file_hosts(*t));
            return r;
        }
    }
    if let Some(host) = &t.dev_host {
        r.push(read_host(host));
    }
    assert(hosts_of(r@) =~= file_hosts(*t));
    r
}

/// The DUTs that a file describes.
pub fn parse_dut_configs(t: &TargetToml) -> (r: Vec<DutConfig>)
    ensures
        duts_of(r@) == file_duts(*t),
        r@.len() > 0,
{
    let global = parse_toml_config(t);
    let hosts = collect_hosts(t);
    let mut r: Vec<DutConfig> = Vec::new();
    if let Some(duts) = &t.dut {
        let mut i: usize = 0;
        while i < duts.len()
            invariant
                i <= duts@.len(),
                t.dut == Some(*duts),
                global@ == t.values(),
                hosts_of(hosts@) == file_hosts(*t),
                r@.len() == i,
                duts@.len() > 0 ==> duts_of(r@) =~= file_duts(*t).subrange(0, i as int),
            decreases duts@.len() - i,
        {
            let d = dut_toml_to_config(&duts[i], &global, &hosts);
            assert(d@ == file_duts(*t)[i as int]);
            r.push(d);
            i = i + 1;
        }
    }
    if r.len() == 0 {
        r.push(default_dut_config(&global, &hosts));
    }
    assert(duts_of(r@) =~= file_duts(*t));
    r
}

// ── Conflicts between DUTs ──────────────────────────────────────────────────

/// DUTs that share a serial port.
pub struct PortConflict {
    pub port: String,
    pub aliases: Vec<String>,
}

/// The place of a DUT's serial line: the host and the port.
pub open spec fn port_key(d: DutView) -> Seq<char> {
    d.dev_host_ip + ":"@ + d.serial_port
}

/// The aliases of the DUTs at a place, in order.
pub open spec fn aliases_at(duts: Seq<DutView>, key: Seq<char>) -> Seq<Seq<char>>
    decreases duts.len(),
{
    if duts.len() == 0 {
        Seq::empty()
    } else if port_key(duts.last()) == key {
        aliases_at(duts.drop_last(), key).push(duts.last().alias)
    } else {
        aliases_at(duts.drop_last(), key)
    }
}

/// The places that more than one DUT uses, in the order in which they come up,
/// with the aliases of those DUTs.
pub open spec fn conflicts(duts: Seq<DutView>, all: Seq<DutView>) -> Seq<(
    Seq<char>,
    Seq<Seq<char>>,
)>
    decreases duts.len(),
{
    if duts.len() == 0 {
        Seq::empty()
    } else {
        let before = conflicts(duts.drop_last(), all);
        let key = port_key(duts.last());
        if aliases_at(duts.drop_last(), key).len() == 0 && aliases_at(all, key).len() > 1 {
            before.push((key, aliases_at(all, key)))
        } else {
            before
        }
    }
}

fn dut_key(d: &DutConfig) -> (r: String)
    ensures
        r@ == port_key(d@),
{
    cat3(&d.dev_host_ip, ":", &d.serial_port)
}

fn collect_at(duts: &Vec<DutConfig>, to: usize, key: &str) -> (r: Vec<String>)
    requires
        to <= duts@.len(),
    ensures
        texts(r@) == aliases_at(duts_of(duts@).subrange(0, to as int), key@),
        r@.len() == aliases_at(duts_of(duts@).subrange(0, to as int), key@).len(),
{
    let ghost all = duts_of(duts@);
    let mut r: Vec<String> = Vec::new();
    let mut i: usize = 0;
    assert(texts(r@) =~= aliases_at(all.subrange(0, 0), key@));
    while i < to
        invariant
            i <= to <= duts@.len(),
            all == duts_of(duts@),
            texts(r@) == aliases_at(all.subrange(0, i as int), key@),
        decreases to - i,
    {
        let ghost t = all.subrange(0, i + 1);
        assert(t.drop_last() =~= all.subrange(0, i as int));
        assert(t.last() == duts@[i as int]@);
        if eq_text(&dut_key(&duts[i]), key) {
            let ghost before = r@;
            r.push(duts[i].alias.clone());
            assert(texts(r@) =~= texts(before).push(t.last().alias));
        }
        i = i + 1;
    }
    assert(texts(r@).len() == r@.len());
    r
}

/// What a list of conflicts says.
pub open spec fn conflicts_of(v: Seq<PortConflict>) -> Seq<(Seq<char>, Seq<Seq<char>>)> {
    v.map_values(|c: PortConflict| (c.port@, texts(c.aliases@)))
}

/// The places that more than one DUT uses.
pub fn port_conflicts(duts: &Vec<DutConfig>) -> (r: Vec<PortConflict>)
    ensures
        conflicts_of(r@) == conflicts(duts_of(duts@), duts_of(duts@)),
{
    let ghost all = duts_of(duts@);
    let mut r: Vec<PortConflict> = Vec::new();
    let mut i: usize = 0;
    assert(conflicts_of(r@) =~= conflicts(all.subrange(0, 0), all));
    assert(all.subrange(0, all.len() as int) =~= all);
    while i < duts.len()
        invariant
            i <= duts@.len(),
            all == duts_of(duts@),
            all.subrange(0, all.len() as int) == all,
            conflicts_of(r@) == conflicts(all.subrange(0, i as int), all),
        decreases duts@.len() - i,
    {
        let ghost t = all.subrange(0, i + 1);
        assert(t.drop_last() =~= all.subrange(0, i as int));
        assert(t.last() == duts@[i as int]@);
        let key = dut_key(&duts[i]);
        let earlier = collect_at(duts, i, &key);
        let sharing = collect_at(duts, duts.len(), &key);
        if earlier.len() == 0 && sharing.len() > 1 {
            let ghost before = r@;
            let ghost entry = (key@, texts(sharing@));
            r.push(PortConflict { port: key, aliases: sharing });
            assert(conflicts_of(r@) =~= conflicts_of(before).push(entry));
        }
        i = i + 1;
    }
    r
}

// ── Loading and validating ──────────────────────────────────────────────────

/// The first DUT of that alias, at or after an index.
pub open spec fn dut_named(duts: Seq<DutView>, alias: Seq<char>, from: int) -> Option<DutView>
    decreases duts.len() - from,
{
    if from < 0 || from >= duts.len() {
        None
    } else if duts[from].alias == alias {
        Some(duts[from])
    } else {
        dut_named(duts, alias, from + 1)
    }
}

/// The index of the first DUT of that alias.
pub fn find_dut(duts: &Vec<DutConfig>, alias: &str) -> (r: Option<usize>)
    ensures
        match r {
            Some(i) => i < duts@.len() && dut_named(duts_of(duts@), alias@, 0) == Some(
                duts@[i as int]@,
            ),
            None => dut_named(duts_of(duts@), alias@, 0) is None,
        },
{
    let ghost all = duts_of(duts@);
    let mut i: usize = 0;
    while i < duts.len()
        invariant
            i <= duts@.len(),
            all == duts_of(duts@),
            dut_named(all, alias@, 0) == dut_named(all, alias@, i as int),
        decreases duts@.len() - i,
    {
        assert(all[i as int] == duts@[i as int]@);
        if eq_text(&duts[i].alias, alias) {
            return Some(i);
        }
        i = i + 1;
    }
    None
}

/// The values of a configuration: the defaults, those of the file, and those of
/// the DUT that was asked for where the file has it.
pub open spec fn loaded_values(file: Option<TargetToml>, alias: Option<Seq<char>>) -> Values {
    match file {
        Some(t) => {
            let base = default_values().union_prefer_right(t.values());
            match alias {
                Some(a) => if trim(a).len() > 0 {
                    match dut_named(file_duts(t), a, 0) {
                        Some(d) => d.onto(base),
                        None => base,
                    }
                } else {
                    base
                },
                None => base,
            }
        },
        None => default_values(),
    }
}

/// Loads a configuration. `file` is what the file at `config_path` holds, where
/// it could be read; `extension` is the path's extension.
pub fn load_config(
    config_path: Option<String>,
    project_dir: Option<String>,
    extension: Option<String>,
    file: Option<&TargetToml>,
    alias: Option<String>,
) -> (r: Config)
    ensures
        r.values@ == loaded_values(
            match file {
                Some(t) => Some(*t),
                None => None,
            },
            text_option(alias),
        ),
        r.config_path == config_path,
        r.project_dir == project_dir,
        r.format == (if text_option(extension) == Some("toml"@) {
            ConfigFormat::Toml
        } else {
            ConfigFormat::Absent
        }),
{
    let mut values = defaults();
    if let Some(t) = file {
        values.extend(&parse_toml_config(t));
        if let Some(a) = alias {
            if !trim_text(&a).as_str().is_empty() {
                let duts = parse_dut_configs(t);
                if let Some(i) = find_dut(&duts, &a) {
                    values = duts[i].to_config_map(&values);
                }
            }
        }
    }
    let format = match extension {
        Some(e) => if eq_text(&e, "toml") {
            ConfigFormat::Toml
        } else {
            ConfigFormat::Absent
        },
        None => ConfigFormat::Absent,
    };
    Config { values, config_path, project_dir, format }
}

/// Whether a project that has a configuration file but no client settings gets
/// client settings written.
pub fn needs_client_settings(target_exists: bool, settings_exist: bool) -> (r: bool)
    ensures
        r == (target_exists && !settings_exist),
{
    target_exists && !settings_exist
}

/// What is wrong with the values: no host, or no serial port.
pub open spec fn value_errors(m: Values) -> Seq<Seq<char>> {
    if host_ip(m).len() == 0 {
        seq![
            "dev_host.ip: required field is empty. Set [[dev_hosts]].ip in .target.toml"@,
        ]
    } else if serial_target_of(m) == "0"@ || serial_target_of(m) == "2000"@ {
        seq![
            "dut.serial.port: must be set to a non-zero port (current: "@ + serial_target_of(m)
                + "). Set [dut.serial].port in .target.toml"@,
        ]
    } else {
        Seq::empty()
    }
}

/// What is wrong with the DUTs: one without a serial port.
pub open spec fn dut_errors(duts: Seq<DutView>) -> Seq<Seq<char>>
    decreases duts.len(),
{
    if duts.len() == 0 {
        Seq::empty()
    } else {
        let before = dut_errors(duts.drop_last());
        let d = duts.last();
        if d.serial_port.len() == 0 || d.serial_port == "0"@ {
            before.push("DUT '"@ + d.alias + "': serial.port is not set"@)
        } else {
            before
        }
    }
}

/// What is wrong with the file: it cannot be read, it lists no DUT, or a DUT is
/// incomplete.
pub open spec fn file_errors(duts: Result<Vec<DutConfig>, String>) -> Seq<Seq<char>> {
    match duts {
        Ok(v) => if v@.len() == 0 {
            seq!["No [[dut]] entries found in .target.toml"@]
        } else {
            dut_errors(duts_of(v@))
        },
        Err(e) => seq!["Failed to parse [[dut]] from .target.toml: "@ + e@],
    }
}

fn collect_dut_errors(duts: &Vec<DutConfig>) -> (r: Vec<String>)
    ensures
        texts(r@) == dut_errors(duts_of(duts@)),
{
    let ghost all = duts_of(duts@);
    let mut r: Vec<String> = Vec::new();
    let mut i: usize = 0;
    assert(texts(r@) =~= dut_errors(all.subrange(0, 0)));
    while i < duts.len()
        invariant
            i <= duts@.len(),
            all == duts_of(duts@),
            texts(r@) == dut_errors(all.subrange(0, i as int)),
        decreases duts@.len() - i,
    {
        let ghost t = all.subrange(0, i + 1);
        assert(t.drop_last() =~= all.subrange(0, i as int));
        assert(t.last() == duts@[i as int]@);
        if duts[i].serial_port.as_str().is_empty() || eq_text(&duts[i].serial_port, "0") {
            let ghost before = r@;
            let message = cat3("DUT '", &duts[i].alias, "': serial.port is not set");
            r.push(message);
            assert(texts(r@) =~= texts(before).push(
                "DUT '"@ + t.last().alias + "': serial.port is not set"@,
            ));
        }
        i = i + 1;
    }
    assert(all.subrange(0, all.len() as int) =~= all);
    r
}

impl Config {
    fn collect_value_errors(&self) -> (r: Vec<String>)
        ensures
            texts(r@) == value_errors(self.values@),
    {
        let mut r: Vec<String> = Vec::new();
        let port = self.serial_target();
        if self.dev_host_ip().as_str().is_empty() {
            r.push(
                "dev_host.ip: required field is empty. Set [[dev_hosts]].ip in .target.toml".to_owned(),
            );
        } else if eq_text(&port, "0") || eq_text(&port, "2000") {
            r.push(
                cat3(
                    "dut.serial.port: must be set to a non-zero port (current: ",
                    &port,
                    "). Set [dut.serial].port in .target.toml",
                ),
            );
        }
        assert(texts(r@) =~= value_errors(self.values@));
        r
    }

    /// Checks the values, listing everything that is wrong.
    pub fn validate(&self) -> (r: Result<(), Vec<String>>)
        ensures
            match r {
                Ok(_) => value_errors(self.values@).len() == 0,
                Err(e) => texts(e@) == value_errors(self.values@) && e@.len() > 0,
            },
    {
        let errors = self.collect_value_errors();
        assert(texts(errors@).len() == errors@.len());
        if errors.len() == 0 {
            Ok(())
        } else {
            Err(errors)
        }
    }

    /// Checks the values and the DUTs of the file, listing everything that is
    /// wrong.
    pub fn validate_file(&self, duts: &Result<Vec<DutConfig>, String>) -> (r: Result<
        (),
        Vec<String>,
    >)
        ensures
            match r {
                Ok(_) => (value_errors(self.values@) + file_errors(*duts)).len() == 0,
                Err(e) => texts(e@) == value_errors(self.values@) + file_errors(*duts) && e@.len()
                    > 0,
            },
    {
        let mut errors = self.collect_value_errors();
        let ghost first = errors@;
        let mut more: Vec<String> = Vec::new();
        match duts {
            Ok(v) => {
                if v.len() == 0 {
                    more.push("No [[dut]] entries found in .target.toml".to_owned());
                } else {
                    more = collect_dut_errors(v);
                }
            },
            Err(e) => {
                more.push(cat("Failed to parse [[dut]] from .target.toml: ", e));
            },
        }
        assert(texts(more@) =~= file_errors(*duts));
        let ghost second = more@;
        errors.append(&mut more);
        assert(texts(errors@) =~= texts(first) + texts(second));
        assert(texts(errors@).len() == errors@.len());
        if errors.len() == 0 {
            Ok(())
        } else {
            Err(errors)
        }
    }
}

// ── Laws ────────────────────────────────────────────────────────────────────

/// Law: a DUT whose entry names no address for the serial line or the relay
/// board takes the host's. Both are empty only where the host's is.
pub proof fn law_addresses_fall_back(d: DutToml, global: Values, hosts: Seq<HostView>)
    ensures
        ({
            let dut = dut_of(d, global, hosts);
            let host = resolved_host(hosts, text_option(d.dev_host)).ip;
            &&& dut.dev_host_ip == host
            &&& (d.serial matches Some(s) ==> s.ip is None) ==> dut.serial_ip == host
            &&& (d.relay matches Some(r) ==> r.ip is None) && lookup(global, "RELAY_IP"@).len()
                == 0 ==> dut.relay_ip == host
            &&& host.len() > 0 ==> dut.serial_ip.len() > 0 && dut.relay_ip.len() > 0
        }),
{
}

/// Law: the power stays off for at least three seconds, whatever a file says.
pub proof fn law_power_off_is_long_enough(d: DutToml, global: Values, hosts: Seq<HostView>)
    ensures
        dut_of(d, global, hosts).power_off_time_ms >= 3000,
        default_dut(global, hosts).power_off_time_ms >= 3000,
{
    lemma_number_bounded(global, "POWER_OFF_TIME_MS"@, u64::MAX as nat, 3000);
}

/// A number read from a value is within its bounds.
pub proof fn lemma_number_bounded(m: Values, key: Seq<char>, max: nat, default: nat)
    requires
        default <= max,
    ensures
        number(m, key, max, default) <= max,
{
}

/// Law: a value of the file takes the place of a default, and a key that the
/// file does not set keeps its default.
pub proof fn law_file_overrides_defaults(t: TargetToml, key: Seq<char>)
    ensures
        lookup(loaded_values(Some(t), None), key) == (if t.values().contains_key(key) {
            t.values()[key]
        } else {
            lookup(default_values(), key)
        }),
        loaded_values(None, None) == default_values(),
{
}

/// The value of a key, where it has one.
pub open spec fn value_at(m: Values, key: Seq<char>) -> Option<Seq<char>> {
    if m.contains_key(key) {
        Some(m[key])
    } else {
        None
    }
}

proof fn lemma_puts()
    ensures
        forall|m: Values, k: Seq<char>, v: Seq<char>, q: Seq<char>| #[trigger]
            value_at(put_text(m, k, v), q) == (if q == k && v.len() > 0 {
                Some(v)
            } else {
                value_at(m, q)
            }),
        forall|m: Values, k: Seq<char>, n: nat, q: Seq<char>| #[trigger]
            value_at(put_number(m, k, n), q) == (if q == k && n > 0 {
                Some(decimal(n))
            } else {
                value_at(m, q)
            }),
        forall|m: Values, k: Seq<char>, v: Seq<char>, q: Seq<char>| #[trigger]
            value_at(m.insert(k, v), q) == (if q == k {
                Some(v)
            } else {
                value_at(m, q)
            }),
{
    reveal(put_text);
    reveal(put_number);
}

/// The keys that a DUT may set.
pub open spec fn is_dut_key(k: Seq<char>) -> bool {
    ||| k == "DUT_ALIAS"@
    ||| k == "DEV_HOST_IP"@
    ||| k == "DEV_HOST_USER"@
    ||| k == "DEV_HOST_PASS"@
    ||| k == "SERIAL_PORT"@
    ||| k == "SERIAL_IP"@
    ||| k == "RELAY_IP"@
    ||| k == "RELAY_TYPE"@
    ||| k == "RELAY_PORT"@
    ||| k == "RESET_CHANNEL"@
    ||| k == "MASKROM_CHANNEL"@
    ||| k == "RECOVERY_CHANNEL"@
    ||| k == "POWER_CHANNEL"@
    ||| k == "POWER_OFF_TIME_MS"@
    ||| k == "REFERENCE_LOG"@
    ||| k == "DUT_DIR"@
    ||| k == "LOGIN_USER"@
    ||| k == "LOGIN_PASS"@
    ||| k == "LEARNER_STAGE_THRESHOLD"@
    ||| k == "LEARNER_CRASH_THRESHOLD"@
    ||| k == "CRASH_PATTERNS"@
}

/// A number that tells the keys of a DUT apart, the two thresholds excepted.
spec fn key_tag(k: Seq<char>) -> int {
    k.len() * 1000000 + (k[0] as u32) * 1000 + k.last() as u32
}

proof fn lemma_key_tags()
    ensures
        key_tag("DUT_ALIAS"@) == 9068083,
        key_tag("DEV_HOST_IP"@) == 11068080,
        key_tag("DEV_HOST_USER"@) == 13068082,
        key_tag("DEV_HOST_PASS"@) == 13068083,
        key_tag("SERIAL_PORT"@) == 11083084,
        key_tag("SERIAL_IP"@) == 9083080,
        key_tag("RELAY_IP"@) == 8082080,
        key_tag("RELAY_TYPE"@) == 10082069,
        key_tag("RELAY_PORT"@) == 10082084,
        key_tag("RESET_CHANNEL"@) == 13082076,
        key_tag("MASKROM_CHANNEL"@) == 15077076,
        key_tag("RECOVERY_CHANNEL"@) == 16082076,
        key_tag("POWER_CHANNEL"@) == 13080076,
        key_tag("POWER_OFF_TIME_MS"@) == 17080083,
        key_tag("REFERENCE_LOG"@) == 13082071,
        key_tag("DUT_DIR"@) == 7068082,
        key_tag("LOGIN_USER"@) == 10076082,
        key_tag("LOGIN_PASS"@) == 10076083,
        key_tag("LEARNER_STAGE_THRESHOLD"@) == 23076068,
        key_tag("LEARNER_CRASH_THRESHOLD"@) == 23076068,
        key_tag("CRASH_PATTERNS"@) == 14067083,
        "LEARNER_STAGE_THRESHOLD"@ != "LEARNER_CRASH_THRESHOLD"@,
{
    reveal_strlit("DUT_ALIAS");
    reveal_strlit("DEV_HOST_IP");
    reveal_strlit("DEV_HOST_USER");
    reveal_strlit("DEV_HOST_PASS");
    reveal_strlit("SERIAL_PORT");
    reveal_strlit("SERIAL_IP");
    reveal_strlit("RELAY_IP");
    reveal_strlit("RELAY_TYPE");
    reveal_strlit("RELAY_PORT");
    reveal_strlit("RESET_CHANNEL");
    reveal_strlit("MASKROM_CHANNEL");
    reveal_strlit("RECOVERY_CHANNEL");
    reveal_strlit("POWER_CHANNEL");
    reveal_strlit("POWER_OFF_TIME_MS");
    reveal_strlit("REFERENCE_LOG");
    reveal_strlit("DUT_DIR");
    reveal_strlit("LOGIN_USER");
    reveal_strlit("LOGIN_PASS");
    reveal_strlit("LEARNER_STAGE_THRESHOLD");
    reveal_strlit("LEARNER_CRASH_THRESHOLD");
    reveal_strlit("CRASH_PATTERNS");
    assert("LEARNER_STAGE_THRESHOLD"@[8] != "LEARNER_CRASH_THRESHOLD"@[8]);
}

/// Law: every value that a DUT sets is what its configuration reads back, and
/// every other key keeps its global value.
#[verifier::rlimit(50)]
pub proof fn law_dut_values_win(d: DutView, global: Values)
    ensures
        ({
            let m = d.onto(global);
            &&& value_at(m, "DUT_ALIAS"@) == Some(d.alias)
            &&& d.dev_host_ip.len() > 0 ==> value_at(m, "DEV_HOST_IP"@) == Some(d.dev_host_ip)
            &&& d.dev_host_user.len() > 0 ==> value_at(m, "DEV_HOST_USER"@) == Some(d.dev_host_user)
            &&& d.dev_host_pass.len() > 0 ==> value_at(m, "DEV_HOST_PASS"@) == Some(d.dev_host_pass)
            &&& d.serial_port.len() > 0 ==> value_at(m, "SERIAL_PORT"@) == Some(d.serial_port)
            &&& d.serial_ip.len() > 0 ==> value_at(m, "SERIAL_IP"@) == Some(d.serial_ip)
            &&& d.relay_ip.len() > 0 ==> value_at(m, "RELAY_IP"@) == Some(d.relay_ip)
            &&& d.relay_type.len() > 0 ==> value_at(m, "RELAY_TYPE"@) == Some(d.relay_type)
            &&& d.relay_port > 0 ==> number(m, "RELAY_PORT"@, u16::MAX as nat, 0) == d.relay_port
            &&& d.reset_ch > 0 ==> number(m, "RESET_CHANNEL"@, u8::MAX as nat, 0) == d.reset_ch
            &&& d.maskrom_ch > 0 ==> number(m, "MASKROM_CHANNEL"@, u8::MAX as nat, 0) == d.maskrom_ch
            &&& d.recovery_ch > 0 ==> number(m, "RECOVERY_CHANNEL"@, u8::MAX as nat, 0) == d.recovery_ch
            &&& d.power_ch > 0 ==> number(m, "POWER_CHANNEL"@, u8::MAX as nat, 0) == d.power_ch
            &&& d.power_off_time_ms > 0 ==> number(m, "POWER_OFF_TIME_MS"@, u64::MAX as nat, 0) == d.power_off_time_ms
            &&& d.reference_log.len() > 0 ==> value_at(m, "REFERENCE_LOG"@) == Some(d.reference_log)
            &&& d.dut_dir.len() > 0 ==> value_at(m, "DUT_DIR"@) == Some(d.dut_dir)
            &&& d.login_user.len() > 0 ==> value_at(m, "LOGIN_USER"@) == Some(d.login_user)
            &&& d.login_pass.len() > 0 ==> value_at(m, "LOGIN_PASS"@) == Some(d.login_pass)
            &&& d.learner_stage_threshold.len() > 0 ==> value_at(m, "LEARNER_STAGE_THRESHOLD"@) == Some(d.learner_stage_threshold)
            &&& d.learner_crash_threshold.len() > 0 ==> value_at(m, "LEARNER_CRASH_THRESHOLD"@) == Some(d.learner_crash_threshold)
            &&& d.crash_patterns.len() > 0 ==> value_at(m, "CRASH_PATTERNS"@) == Some(
                joined(d.crash_patterns, "\n"@),
            )
        }),
        forall|k: Seq<char>|
            !is_dut_key(k) ==> #[trigger] value_at(d.onto(global), k) == value_at(global, k),
{
    lemma_key_tags();
    lemma_puts();
    crate::text::lemma_decimal_round_trip(d.relay_port as nat, u16::MAX as nat);
    crate::text::lemma_decimal_round_trip(d.reset_ch as nat, u8::MAX as nat);
    crate::text::lemma_decimal_round_trip(d.maskrom_ch as nat, u8::MAX as nat);
    crate::text::lemma_decimal_round_trip(d.recovery_ch as nat, u8::MAX as nat);
    crate::text::lemma_decimal_round_trip(d.power_ch as nat, u8::MAX as nat);
    crate::text::lemma_decimal_round_trip(d.power_off_time_ms as nat, u64::MAX as nat);
    let m = d.onto(global);
    assert(d.relay_port > 0 ==> value_at(m, "RELAY_PORT"@) == Some(decimal(d.relay_port as nat)));
    assert(d.reset_ch > 0 ==> value_at(m, "RESET_CHANNEL"@) == Some(decimal(d.reset_ch as nat)));
    assert(d.maskrom_ch > 0 ==> value_at(m, "MASKROM_CHANNEL"@) == Some(decimal(d.maskrom_ch as nat)));
    assert(d.recovery_ch > 0 ==> value_at(m, "RECOVERY_CHANNEL"@) == Some(decimal(d.recovery_ch as nat)));
    assert(d.power_ch > 0 ==> value_at(m, "POWER_CHANNEL"@) == Some(decimal(d.power_ch as nat)));
    assert(d.power_off_time_ms > 0 ==> value_at(m, "POWER_OFF_TIME_MS"@) == Some(decimal(d.power_off_time_ms as nat)));
}

/// A number that tells the keys of a file apart.
spec fn file_key_tag(k: Seq<char>) -> int {
    k.len() * 1_000_000_000 + (k[0] as u32) * 1_000_000 + (k.last() as u32) * 1000 + k[(k.len()
        / 2) as int] as u32
}

proof fn lemma_file_key_tags()
    ensures
        file_key_tag("DEV_HOST_ALIAS"@) == 14068083084,
        file_key_tag("DEV_HOST_IP"@) == 11068080079,
        file_key_tag("DEV_HOST_USER"@) == 13068082083,
        file_key_tag("DEV_HOST_PASS"@) == 13068083083,
        file_key_tag("SERIAL_IP"@) == 9083080065,
        file_key_tag("SERIAL_PORT"@) == 11083084076,
        file_key_tag("SERIAL_BAUDRATE"@) == 15083069066,
        file_key_tag("LOGIN_USER"@) == 10076082095,
        file_key_tag("LOGIN_PASS"@) == 10076083095,
        file_key_tag("LOGIN_PROMPT"@) == 12076084080,
        file_key_tag("UBOOT_INTERRUPT_CHAR"@) == 20085082082,
        file_key_tag("UBOOT_INTERRUPT_STRATEGY"@) == 24085089085,
        file_key_tag("RELAY_TYPE"@) == 10082069095,
        file_key_tag("RELAY_PORT"@) == 10082084095,
        file_key_tag("RELAY_IP"@) == 8082080089,
        file_key_tag("RESET_CHANNEL"@) == 13082076067,
        file_key_tag("MASKROM_CHANNEL"@) == 15077076095,
        file_key_tag("RECOVERY_CHANNEL"@) == 16082076095,
        file_key_tag("RESET_TIME_MS"@) == 13082083084,
        file_key_tag("HANG_TIMEOUT"@) == 12072084073,
        file_key_tag("HANG_HYSTERESIS"@) == 15072083083,
        file_key_tag("MAX_ARCHIVED_LOGS"@) == 17077083073,
        file_key_tag("MAX_LOG_FILE_SIZE"@) == 17077069070,
        file_key_tag("REFERENCE_LOG"@) == 13082071078,
        file_key_tag("FLASH_TOOL"@) == 10070076095,
        file_key_tag("FLASH_FULL_IMAGE_CMD"@) == 20070068095,
        file_key_tag("FLASH_KERNEL_IMAGE_CMD"@) == 22070068076,
        file_key_tag("FLASH_LOADER_BIN"@) == 16070078065,
        file_key_tag("FLASH_LOADER_CMD"@) == 16070068065,
        file_key_tag("FLASH_LIST_DEVICES_CMD"@) == 22070068068,
        file_key_tag("FLASH_UPLOAD_DIR"@) == 16070082076,
        file_key_tag("DEV_CTL"@) == 7068076095,
        file_key_tag("LOCK_DIR"@) == 8076082095,
        file_key_tag("DUT_DIR"@) == 7068082095,
        file_key_tag("DUT_ALIAS"@) == 9068083065,
        file_key_tag("DUT_ALIASES"@) == 11068083076,
        file_key_tag("SERIAL_PROTOCOL"@) == 15083076080,
        file_key_tag("LEARNER_STAGE_THRESHOLD"@) == 23076068071,
        file_key_tag("LEARNER_CRASH_THRESHOLD"@) == 23076068083,
{
    reveal_strlit("DEV_HOST_ALIAS");
    reveal_strlit("DEV_HOST_IP");
    reveal_strlit("DEV_HOST_USER");
    reveal_strlit("DEV_HOST_PASS");
    reveal_strlit("SERIAL_IP");
    reveal_strlit("SERIAL_PORT");
    reveal_strlit("SERIAL_BAUDRATE");
    reveal_strlit("LOGIN_USER");
    reveal_strlit("LOGIN_PASS");
    reveal_strlit("LOGIN_PROMPT");
    reveal_strlit("UBOOT_INTERRUPT_CHAR");
    reveal_strlit("UBOOT_INTERRUPT_STRATEGY");
    reveal_strlit("RELAY_TYPE");
    reveal_strlit("RELAY_PORT");
    reveal_strlit("RELAY_IP");
    reveal_strlit("RESET_CHANNEL");
    reveal_strlit("MASKROM_CHANNEL");
    reveal_strlit("RECOVERY_CHANNEL");
    reveal_strlit("RESET_TIME_MS");
    reveal_strlit("HANG_TIMEOUT");
    reveal_strlit("HANG_HYSTERESIS");
    reveal_strlit("MAX_ARCHIVED_LOGS");
    reveal_strlit("MAX_LOG_FILE_SIZE");
    reveal_strlit("REFERENCE_LOG");
    reveal_strlit("FLASH_TOOL");
    reveal_strlit("FLASH_FULL_IMAGE_CMD");
    reveal_strlit("FLASH_KERNEL_IMAGE_CMD");
    reveal_strlit("FLASH_LOADER_BIN");
    reveal_strlit("FLASH_LOADER_CMD");
    reveal_strlit("FLASH_LIST_DEVICES_CMD");
    reveal_strlit("FLASH_UPLOAD_DIR");
    reveal_strlit("DEV_CTL");
    reveal_strlit("LOCK_DIR");
    reveal_strlit("DUT_DIR");
    reveal_strlit("DUT_ALIAS");
    reveal_strlit("DUT_ALIASES");
    reveal_strlit("SERIAL_PROTOCOL");
    reveal_strlit("LEARNER_STAGE_THRESHOLD");
    reveal_strlit("LEARNER_CRASH_THRESHOLD");
}

/// A value that is set replaces the one that was there.
proof fn lemma_put()
    ensures
        forall|m: Values, k: Seq<char>, v: Option<Seq<char>>, q: Seq<char>| #[trigger]
            value_at(put(m, k, v), q) == (if q == k && v is Some {
                v
            } else {
                value_at(m, q)
            }),
        forall|m: Values, k: Seq<char>, v: Seq<char>, q: Seq<char>| #[trigger]
            value_at(m.insert(k, v), q) == (if q == k {
                Some(v)
            } else {
                value_at(m, q)
            }),
{
}

/// A value that is set, or what there was.
pub open spec fn set_or(v: Option<Seq<char>>, old: Option<Seq<char>>) -> Option<Seq<char>> {
    if v is Some {
        v
    } else {
        old
    }
}

/// A number as text.
pub open spec fn number_text(n: Option<nat>) -> Option<Seq<char>> {
    match n {
        Some(n) => Some(decimal(n)),
        None => None,
    }
}

/// The channel under its short name, or else under its long one.
pub open spec fn channel(short: Option<u8>, long: Option<u8>) -> Option<nat> {
    match (short, long) {
        (Some(n), _) => Some(n as nat),
        (None, Some(n)) => Some(n as nat),
        _ => None,
    }
}

/// Law: each value of a host section is found under its key, a value that is not set
/// leaves what there was, and no other key changes.
pub proof fn law_host_section(s: DevHostToml, m: Values)
    ensures
        value_at(s.onto(m), "DEV_HOST_ALIAS"@) == set_or(text_option(s.alias), value_at(m, "DEV_HOST_ALIAS"@)),
        value_at(s.onto(m), "DEV_HOST_IP"@) == set_or(text_option(s.ip), value_at(m, "DEV_HOST_IP"@)),
        value_at(s.onto(m), "DEV_HOST_USER"@) == set_or(text_option(s.user), value_at(m, "DEV_HOST_USER"@)),
        value_at(s.onto(m), "DEV_HOST_PASS"@) == set_or(text_option(s.pass), value_at(m, "DEV_HOST_PASS"@)),
        forall|q: Seq<char>|
            q != "DEV_HOST_ALIAS"@ && q != "DEV_HOST_IP"@ && q != "DEV_HOST_USER"@ && q != "DEV_HOST_PASS"@ ==> #[trigger] value_at(s.onto(m), q) == value_at(m, q),
{
    lemma_file_key_tags();
    lemma_put();
}

/// Law: each value of a serial section is found under its key, a value that is not set
/// leaves what there was, and no other key changes.
pub proof fn law_serial_section(s: SerialToml, m: Values)
    ensures
        value_at(s.onto(m), "SERIAL_IP"@) == set_or(text_option(s.ip), value_at(m, "SERIAL_IP"@)),
        value_at(s.onto(m), "SERIAL_PORT"@) == set_or(value_option(s.port), value_at(m, "SERIAL_PORT"@)),
        value_at(s.onto(m), "SERIAL_BAUDRATE"@) == set_or(value_option(s.baudrate), value_at(m, "SERIAL_BAUDRATE"@)),
        forall|q: Seq<char>|
            q != "SERIAL_IP"@ && q != "SERIAL_PORT"@ && q != "SERIAL_BAUDRATE"@ ==> #[trigger] value_at(s.onto(m), q) == value_at(m, q),
{
    lemma_file_key_tags();
    lemma_put();
}

/// Law: each value of a target section is found under its key, a value that is not set
/// leaves what there was, and no other key changes.
pub proof fn law_target_section(s: TargetCredsToml, m: Values)
    ensures
        value_at(s.onto(m), "LOGIN_USER"@) == set_or(text_option(s.login_user), value_at(m, "LOGIN_USER"@)),
        value_at(s.onto(m), "LOGIN_PASS"@) == set_or(text_option(s.login_pass), value_at(m, "LOGIN_PASS"@)),
        value_at(s.onto(m), "LOGIN_PROMPT"@) == set_or(text_option(s.login_prompt), value_at(m, "LOGIN_PROMPT"@)),
        forall|q: Seq<char>|
            q != "LOGIN_USER"@ && q != "LOGIN_PASS"@ && q != "LOGIN_PROMPT"@ ==> #[trigger] value_at(s.onto(m), q) == value_at(m, q),
{
    lemma_file_key_tags();
    lemma_put();
}

/// Law: each value of a uboot section is found under its key, a value that is not set
/// leaves what there was, and no other key changes.
pub proof fn law_uboot_section(s: UbootToml, m: Values)
    ensures
        value_at(s.onto(m), "UBOOT_INTERRUPT_CHAR"@) == set_or(text_option(s.interrupt_char), value_at(m, "UBOOT_INTERRUPT_CHAR"@)),
        value_at(s.onto(m), "UBOOT_INTERRUPT_STRATEGY"@) == set_or(text_option(s.interrupt_strategy), value_at(m, "UBOOT_INTERRUPT_STRATEGY"@)),
        forall|q: Seq<char>|
            q != "UBOOT_INTERRUPT_CHAR"@ && q != "UBOOT_INTERRUPT_STRATEGY"@ ==> #[trigger] value_at(s.onto(m), q) == value_at(m, q),
{
    lemma_file_key_tags();
    lemma_put();
}

/// Law: each value of a relay section is found under its key, a value that is not set
/// leaves what there was, and no other key changes.
#[verifier::rlimit(50)]
pub proof fn law_relay_section(s: RelayToml, m: Values)
    ensures
        value_at(s.onto(m), "RELAY_TYPE"@) == set_or(text_option(s.relay_type), value_at(m, "RELAY_TYPE"@)),
        value_at(s.onto(m), "RELAY_PORT"@) == set_or(number_text(match s.port { Some(n) => Some(n as nat), None => None }), value_at(m, "RELAY_PORT"@)),
        value_at(s.onto(m), "RELAY_IP"@) == set_or(text_option(s.ip), value_at(m, "RELAY_IP"@)),
        value_at(s.onto(m), "RESET_CHANNEL"@) == set_or(number_text(channel(s.reset_ch, s.reset_channel)), value_at(m, "RESET_CHANNEL"@)),
        value_at(s.onto(m), "MASKROM_CHANNEL"@) == set_or(number_text(channel(s.maskrom_ch, s.maskrom_channel)), value_at(m, "MASKROM_CHANNEL"@)),
        value_at(s.onto(m), "RECOVERY_CHANNEL"@) == set_or(number_text(channel(s.recovery_ch, s.recovery_channel)), value_at(m, "RECOVERY_CHANNEL"@)),
        value_at(s.onto(m), "RESET_TIME_MS"@) == set_or(number_text(match s.reset_time_ms { Some(n) => Some(n as nat), None => None }), value_at(m, "RESET_TIME_MS"@)),
        forall|q: Seq<char>|
            q != "RELAY_TYPE"@ && q != "RELAY_PORT"@ && q != "RELAY_IP"@ && q != "RESET_CHANNEL"@ && q != "MASKROM_CHANNEL"@ && q != "RECOVERY_CHANNEL"@ && q != "RESET_TIME_MS"@ ==> #[trigger] value_at(s.onto(m), q) == value_at(m, q),
{
    lemma_file_key_tags();
    lemma_put();
}

/// Law: each value of a monitor section is found under its key, a value that is not set
/// leaves what there was, and no other key changes.
#[verifier::rlimit(50)]
pub proof fn law_monitor_section(s: MonitorToml, m: Values)
    ensures
        value_at(s.onto(m), "HANG_TIMEOUT"@) == set_or(number_text(match s.hang_timeout { Some(n) => Some(n as nat), None => None }), value_at(m, "HANG_TIMEOUT"@)),
        value_at(s.onto(m), "HANG_HYSTERESIS"@) == set_or(number_text(match s.hang_hysteresis { Some(n) => Some(n as nat), None => None }), value_at(m, "HANG_HYSTERESIS"@)),
        value_at(s.onto(m), "MAX_ARCHIVED_LOGS"@) == set_or(number_text(match s.max_archived_logs { Some(n) => Some(n as nat), None => None }), value_at(m, "MAX_ARCHIVED_LOGS"@)),
        value_at(s.onto(m), "MAX_LOG_FILE_SIZE"@) == set_or(number_text(match s.max_log_file_size { Some(n) => Some(n as nat), None => None }), value_at(m, "MAX_LOG_FILE_SIZE"@)),
        value_at(s.onto(m), "REFERENCE_LOG"@) == set_or(text_option(s.reference_log), value_at(m, "REFERENCE_LOG"@)),
        forall|q: Seq<char>|
            q != "HANG_TIMEOUT"@ && q != "HANG_HYSTERESIS"@ && q != "MAX_ARCHIVED_LOGS"@ && q != "MAX_LOG_FILE_SIZE"@ && q != "REFERENCE_LOG"@ ==> #[trigger] value_at(s.onto(m), q) == value_at(m, q),
{
    lemma_file_key_tags();
    lemma_put();
}

/// Law: each value of a flash section is found under its key, a value that is not set
/// leaves what there was, and no other key changes.
#[verifier::rlimit(50)]
pub proof fn law_flash_section(s: FlashToml, m: Values)
    ensures
        value_at(s.onto(m), "FLASH_TOOL"@) == set_or(text_option(s.tool), value_at(m, "FLASH_TOOL"@)),
        value_at(s.onto(m), "FLASH_FULL_IMAGE_CMD"@) == set_or(text_option(s.full_image_cmd), value_at(m, "FLASH_FULL_IMAGE_CMD"@)),
        value_at(s.onto(m), "FLASH_KERNEL_IMAGE_CMD"@) == set_or(text_option(s.kernel_image_cmd), value_at(m, "FLASH_KERNEL_IMAGE_CMD"@)),
        value_at(s.onto(m), "FLASH_LOADER_BIN"@) == set_or(text_option(s.loader_bin), value_at(m, "FLASH_LOADER_BIN"@)),
        value_at(s.onto(m), "FLASH_LOADER_CMD"@) == set_or(text_option(s.loader_cmd), value_at(m, "FLASH_LOADER_CMD"@)),
        value_at(s.onto(m), "FLASH_LIST_DEVICES_CMD"@) == set_or(text_option(s.list_devices_cmd), value_at(m, "FLASH_LIST_DEVICES_CMD"@)),
        value_at(s.onto(m), "FLASH_UPLOAD_DIR"@) == set_or(text_option(s.upload_dir), value_at(m, "FLASH_UPLOAD_DIR"@)),
        forall|q: Seq<char>|
            q != "FLASH_TOOL"@ && q != "FLASH_FULL_IMAGE_CMD"@ && q != "FLASH_KERNEL_IMAGE_CMD"@ && q != "FLASH_LOADER_BIN"@ && q != "FLASH_LOADER_CMD"@ && q != "FLASH_LIST_DEVICES_CMD"@ && q != "FLASH_UPLOAD_DIR"@ ==> #[trigger] value_at(s.onto(m), q) == value_at(m, q),
{
    lemma_file_key_tags();
    lemma_put();
}

/// Law: each value of a control section is found under its key, a value that is not set
/// leaves what there was, and no other key changes.
pub proof fn law_control_section(s: ControlToml, m: Values)
    ensures
        value_at(s.onto(m), "DEV_CTL"@) == set_or(text_option(s.dev_ctl), value_at(m, "DEV_CTL"@)),
        forall|q: Seq<char>|
            q != "DEV_CTL"@ ==> #[trigger] value_at(s.onto(m), q) == value_at(m, q),
{
    lemma_file_key_tags();
    lemma_put();
}

/// What a serial section sets under a key.
spec fn serial_value(s: Option<SerialToml>, q: Seq<char>) -> Option<Seq<char>> {
    match s {
        Some(s) => if q == "SERIAL_IP"@ {
            text_option(s.ip)
        } else if q == "SERIAL_PORT"@ {
            value_option(s.port)
        } else if q == "SERIAL_BAUDRATE"@ {
            value_option(s.baudrate)
        } else {
            None
        },
        None => None,
    }
}

proof fn lemma_serial_at(s: Option<SerialToml>, m: Values, q: Seq<char>)
    ensures
        value_at(SerialToml::option_onto(s, m), q) == set_or(serial_value(s, q), value_at(m, q)),
{
    lemma_file_key_tags();
    if let Some(x) = s {
        law_serial_section(x, m);
    }
}

/// What a target section sets under a key.
spec fn target_value(s: Option<TargetCredsToml>, q: Seq<char>) -> Option<Seq<char>> {
    match s {
        Some(s) => if q == "LOGIN_USER"@ {
            text_option(s.login_user)
        } else if q == "LOGIN_PASS"@ {
            text_option(s.login_pass)
        } else if q == "LOGIN_PROMPT"@ {
            text_option(s.login_prompt)
        } else {
            None
        },
        None => None,
    }
}

proof fn lemma_target_at(s: Option<TargetCredsToml>, m: Values, q: Seq<char>)
    ensures
        value_at(TargetCredsToml::option_onto(s, m), q) == set_or(target_value(s, q), value_at(m, q)),
{
    lemma_file_key_tags();
    if let Some(x) = s {
        law_target_section(x, m);
    }
}

/// What a uboot section sets under a key.
spec fn uboot_value(s: Option<UbootToml>, q: Seq<char>) -> Option<Seq<char>> {
    match s {
        Some(s) => if q == "UBOOT_INTERRUPT_CHAR"@ {
            text_option(s.interrupt_char)
        } else if q == "UBOOT_INTERRUPT_STRATEGY"@ {
            text_option(s.interrupt_strategy)
        } else {
            None
        },
        None => None,
    }
}

proof fn lemma_uboot_at(s: Option<UbootToml>, m: Values, q: Seq<char>)
    ensures
        value_at(UbootToml::option_onto(s, m), q) == set_or(uboot_value(s, q), value_at(m, q)),
{
    lemma_file_key_tags();
    if let Some(x) = s {
        law_uboot_section(x, m);
    }
}

/// What a relay section sets under a key.
spec fn relay_value(s: Option<RelayToml>, q: Seq<char>) -> Option<Seq<char>> {
    match s {
        Some(s) => if q == "RELAY_TYPE"@ {
            text_option(s.relay_type)
        } else if q == "RELAY_PORT"@ {
            number_text(match s.port { Some(n) => Some(n as nat), None => None })
        } else if q == "RELAY_IP"@ {
            text_option(s.ip)
        } else if q == "RESET_CHANNEL"@ {
            number_text(channel(s.reset_ch, s.reset_channel))
        } else if q == "MASKROM_CHANNEL"@ {
            number_text(channel(s.maskrom_ch, s.maskrom_channel))
        } else if q == "RECOVERY_CHANNEL"@ {
            number_text(channel(s.recovery_ch, s.recovery_channel))
        } else if q == "RESET_TIME_MS"@ {
            number_text(match s.reset_time_ms { Some(n) => Some(n as nat), None => None })
        } else {
            None
        },
        None => None,
    }
}

proof fn lemma_relay_at(s: Option<RelayToml>, m: Values, q: Seq<char>)
    ensures
        value_at(RelayToml::option_onto(s, m), q) == set_or(relay_value(s, q), value_at(m, q)),
{
    lemma_file_key_tags();
    if let Some(x) = s {
        law_relay_section(x, m);
    }
}

/// What a monitor section sets under a key.
spec fn monitor_value(s: Option<MonitorToml>, q: Seq<char>) -> Option<Seq<char>> {
    match s {
        Some(s) => if q == "HANG_TIMEOUT"@ {
            number_text(match s.hang_timeout { Some(n) => Some(n as nat), None => None })
        } else if q == "HANG_HYSTERESIS"@ {
            number_text(match s.hang_hysteresis { Some(n) => Some(n as nat), None => None })
        } else if q == "MAX_ARCHIVED_LOGS"@ {
            number_text(match s.max_archived_logs { Some(n) => Some(n as nat), None => None })
        } else if q == "MAX_LOG_FILE_SIZE"@ {
            number_text(match s.max_log_file_size { Some(n) => Some(n as nat), None => None })
        } else if q == "REFERENCE_LOG"@ {
            text_option(s.reference_log)
        } else {
            None
        },
        None => None,
    }
}

proof fn lemma_monitor_at(s: Option<MonitorToml>, m: Values, q: Seq<char>)
    ensures
        value_at(MonitorToml::option_onto(s, m), q) == set_or(monitor_value(s, q), value_at(m, q)),
{
    lemma_file_key_tags();
    if let Some(x) = s {
        law_monitor_section(x, m);
    }
}

/// What a flash section sets under a key.
spec fn flash_value(s: Option<FlashToml>, q: Seq<char>) -> Option<Seq<char>> {
    match s {
        Some(s) => if q == "FLASH_TOOL"@ {
            text_option(s.tool)
        } else if q == "FLASH_FULL_IMAGE_CMD"@ {
            text_option(s.full_image_cmd)
        } else if q == "FLASH_KERNEL_IMAGE_CMD"@ {
            text_option(s.kernel_image_cmd)
        } else if q == "FLASH_LOADER_BIN"@ {
            text_option(s.loader_bin)
        } else if q == "FLASH_LOADER_CMD"@ {
            text_option(s.loader_cmd)
        } else if q == "FLASH_LIST_DEVICES_CMD"@ {
            text_option(s.list_devices_cmd)
        } else if q == "FLASH_UPLOAD_DIR"@ {
            text_option(s.upload_dir)
        } else {
            None
        },
        None => None,
    }
}

proof fn lemma_flash_at(s: Option<FlashToml>, m: Values, q: Seq<char>)
    ensures
        value_at(FlashToml::option_onto(s, m), q) == set_or(flash_value(s, q), value_at(m, q)),
{
    lemma_file_key_tags();
    if let Some(x) = s {
        law_flash_section(x, m);
    }
}

/// What a control section sets under a key.
spec fn control_value(s: Option<ControlToml>, q: Seq<char>) -> Option<Seq<char>> {
    match s {
        Some(s) => if q == "DEV_CTL"@ {
            text_option(s.dev_ctl)
        } else {
            None
        },
        None => None,
    }
}

proof fn lemma_control_at(s: Option<ControlToml>, m: Values, q: Seq<char>)
    ensures
        value_at(ControlToml::option_onto(s, m), q) == set_or(control_value(s, q), value_at(m, q)),
{
    lemma_file_key_tags();
    if let Some(x) = s {
        law_control_section(x, m);
    }
}

/// A value under one key alone.
spec fn under(key: Seq<char>, v: Option<Seq<char>>, q: Seq<char>) -> Option<Seq<char>> {
    if q == key {
        v
    } else {
        None
    }
}

spec fn global_value(t: TargetToml, first: Option<Seq<char>>, q: Seq<char>) -> Option<Seq<char>> {
    let v = set_or(control_value(t.control, q), set_or(flash_value(t.flash, q), set_or(monitor_value(t.monitor, q), set_or(relay_value(t.relay, q), set_or(uboot_value(t.uboot, q), set_or(target_value(t.target, q), set_or(serial_value(t.serial, q), first)))))));
    let v = set_or(under("REFERENCE_LOG"@, text_option(t.reference_log), q), v);
    let v = set_or(under("LOCK_DIR"@, text_option(t.lock_dir), q), v);
    set_or(under("DUT_DIR"@, text_option(t.dut_dir), q), v)
}

/// What the first host sets.
spec fn first_host(t: TargetToml) -> Values {
    if t.hosts().len() > 0 {
        t.hosts()[0].onto(Map::empty())
    } else {
        Map::empty()
    }
}

proof fn lemma_global_at(t: TargetToml, q: Seq<char>)
    ensures
        value_at(t.globals(Map::empty()), q) == global_value(t, value_at(first_host(t), q), q),
{
    let m1 = first_host(t);
    let m2 = SerialToml::option_onto(t.serial, m1);
    lemma_serial_at(t.serial, m1, q);
    let m3 = TargetCredsToml::option_onto(t.target, m2);
    lemma_target_at(t.target, m2, q);
    let m4 = UbootToml::option_onto(t.uboot, m3);
    lemma_uboot_at(t.uboot, m3, q);
    let m5 = RelayToml::option_onto(t.relay, m4);
    lemma_relay_at(t.relay, m4, q);
    let m6 = MonitorToml::option_onto(t.monitor, m5);
    lemma_monitor_at(t.monitor, m5, q);
    let m7 = FlashToml::option_onto(t.flash, m6);
    lemma_flash_at(t.flash, m6, q);
    let m8 = ControlToml::option_onto(t.control, m7);
    lemma_control_at(t.control, m7, q);
    lemma_puts_at(m8, t, q);
}

proof fn lemma_puts_at(m: Values, t: TargetToml, q: Seq<char>)
    ensures
        ({
            let a = put(m, "REFERENCE_LOG"@, text_option(t.reference_log));
            let b = put(a, "LOCK_DIR"@, text_option(t.lock_dir));
            let c = put(b, "DUT_DIR"@, text_option(t.dut_dir));
            value_at(c, q) == set_or(
                under("DUT_DIR"@, text_option(t.dut_dir), q),
                set_or(
                    under("LOCK_DIR"@, text_option(t.lock_dir), q),
                    set_or(
                        under("REFERENCE_LOG"@, text_option(t.reference_log), q),
                        value_at(m, q),
                    ),
                ),
            )
        }),
{
    lemma_put();
}

proof fn lemma_first_host(t: TargetToml)
    ensures
        t.hosts().len() > 0 ==> {
            let x = t.hosts()[0];
            &&& value_at(first_host(t), "DEV_HOST_ALIAS"@) == text_option(x.alias)
            &&& value_at(first_host(t), "DEV_HOST_IP"@) == text_option(x.ip)
            &&& value_at(first_host(t), "DEV_HOST_USER"@) == text_option(x.user)
            &&& value_at(first_host(t), "DEV_HOST_PASS"@) == text_option(x.pass)
        },
        forall|q: Seq<char>|
            q != "DEV_HOST_ALIAS"@ && q != "DEV_HOST_IP"@ && q != "DEV_HOST_USER"@ && q
                != "DEV_HOST_PASS"@ ==> #[trigger] value_at(first_host(t), q) is None,
{
    if t.hosts().len() > 0 {
        law_host_section(t.hosts()[0], Map::empty());
    }
}

#[verifier::rlimit(50)]
proof fn lemma_global_host_keys(t: TargetToml, first: Option<Seq<char>>)
    ensures
        global_value(t, first, "DEV_HOST_ALIAS"@) == first,
        global_value(t, first, "DEV_HOST_IP"@) == first,
        global_value(t, first, "DEV_HOST_USER"@) == first,
        global_value(t, first, "DEV_HOST_PASS"@) == first,
{
    lemma_file_key_tags();
}

#[verifier::rlimit(50)]
proof fn lemma_global_serial_keys(t: TargetToml, first: Option<Seq<char>>)
    ensures
        global_value(t, first, "SERIAL_IP"@) == set_or((match t.serial { Some(x) => text_option(x.ip), None => None }), first),
        global_value(t, first, "SERIAL_PORT"@) == set_or((match t.serial { Some(x) => value_option(x.port), None => None }), first),
        global_value(t, first, "SERIAL_BAUDRATE"@) == set_or((match t.serial { Some(x) => value_option(x.baudrate), None => None }), first),
{
    lemma_file_key_tags();
}

#[verifier::rlimit(50)]
proof fn lemma_global_target_keys(t: TargetToml, first: Option<Seq<char>>)
    ensures
        global_value(t, first, "LOGIN_USER"@) == set_or((match t.target { Some(x) => text_option(x.login_user), None => None }), first),
        global_value(t, first, "LOGIN_PASS"@) == set_or((match t.target { Some(x) => text_option(x.login_pass), None => None }), first),
        global_value(t, first, "LOGIN_PROMPT"@) == set_or((match t.target { Some(x) => text_option(x.login_prompt), None => None }), first),
{
    lemma_file_key_tags();
}

#[verifier::rlimit(50)]
proof fn lemma_global_uboot_keys(t: TargetToml, first: Option<Seq<char>>)
    ensures
        global_value(t, first, "UBOOT_INTERRUPT_CHAR"@) == set_or((match t.uboot { Some(x) => text_option(x.interrupt_char), None => None }), first),
        global_value(t, first, "UBOOT_INTERRUPT_STRATEGY"@) == set_or((match t.uboot { Some(x) => text_option(x.interrupt_strategy), None => None }), first),
{
    lemma_file_key_tags();
}

#[verifier::rlimit(50)]
proof fn lemma_global_relay_keys(t: TargetToml, first: Option<Seq<char>>)
    ensures
        global_value(t, first, "RELAY_TYPE"@) == set_or((match t.relay { Some(x) => text_option(x.relay_type), None => None }), first),
        global_value(t, first, "RELAY_PORT"@) == set_or((match t.relay { Some(x) => number_text(match x.port { Some(n) => Some(n as nat), None => None }), None => None }), first),
        global_value(t, first, "RELAY_IP"@) == set_or((match t.relay { Some(x) => text_option(x.ip), None => None }), first),
        global_value(t, first, "RESET_CHANNEL"@) == set_or((match t.relay { Some(x) => number_text(channel(x.reset_ch, x.reset_channel)), None => None }), first),
        global_value(t, first, "MASKROM_CHANNEL"@) == set_or((match t.relay { Some(x) => number_text(channel(x.maskrom_ch, x.maskrom_channel)), None => None }), first),
        global_value(t, first, "RECOVERY_CHANNEL"@) == set_or((match t.relay { Some(x) => number_text(channel(x.recovery_ch, x.recovery_channel)), None => None }), first),
        global_value(t, first, "RESET_TIME_MS"@) == set_or((match t.relay { Some(x) => number_text(match x.reset_time_ms { Some(n) => Some(n as nat), None => None }), None => None }), first),
{
    lemma_file_key_tags();
}

#[verifier::rlimit(50)]
proof fn lemma_global_monitor_keys(t: TargetToml, first: Option<Seq<char>>)
    ensures
        global_value(t, first, "HANG_TIMEOUT"@) == set_or((match t.monitor { Some(x) => number_text(match x.hang_timeout { Some(n) => Some(n as nat), None => None }), None => None }), first),
        global_value(t, first, "HANG_HYSTERESIS"@) == set_or((match t.monitor { Some(x) => number_text(match x.hang_hysteresis { Some(n) => Some(n as nat), None => None }), None => None }), first),
        global_value(t, first, "MAX_ARCHIVED_LOGS"@) == set_or((match t.monitor { Some(x) => number_text(match x.max_archived_logs { Some(n) => Some(n as nat), None => None }), None => None }), first),
        global_value(t, first, "MAX_LOG_FILE_SIZE"@) == set_or((match t.monitor { Some(x) => number_text(match x.max_log_file_size { Some(n) => Some(n as nat), None => None }), None => None }), first),
{
    lemma_file_key_tags();
}

#[verifier::rlimit(50)]
proof fn lemma_global_flash_keys(t: TargetToml, first: Option<Seq<char>>)
    ensures
        global_value(t, first, "FLASH_TOOL"@) == set_or((match t.flash { Some(x) => text_option(x.tool), None => None }), first),
        global_value(t, first, "FLASH_FULL_IMAGE_CMD"@) == set_or((match t.flash { Some(x) => text_option(x.full_image_cmd), None => None }), first),
        global_value(t, first, "FLASH_KERNEL_IMAGE_CMD"@) == set_or((match t.flash { Some(x) => text_option(x.kernel_image_cmd), None => None }), first),
        global_value(t, first, "FLASH_LOADER_BIN"@) == set_or((match t.flash { Some(x) => text_option(x.loader_bin), None => None }), first),
        global_value(t, first, "FLASH_LOADER_CMD"@) == set_or((match t.flash { Some(x) => text_option(x.loader_cmd), None => None }), first),
        global_value(t, first, "FLASH_LIST_DEVICES_CMD"@) == set_or((match t.flash { Some(x) => text_option(x.list_devices_cmd), None => None }), first),
        global_value(t, first, "FLASH_UPLOAD_DIR"@) == set_or((match t.flash { Some(x) => text_option(x.upload_dir), None => None }), first),
{
    lemma_file_key_tags();
}

#[verifier::rlimit(50)]
proof fn lemma_global_control_keys(t: TargetToml, first: Option<Seq<char>>)
    ensures
        global_value(t, first, "DEV_CTL"@) == set_or((match t.control { Some(x) => text_option(x.dev_ctl), None => None }), first),
{
    lemma_file_key_tags();
}

#[verifier::rlimit(50)]
proof fn lemma_global_file_keys(t: TargetToml, first: Option<Seq<char>>)
    ensures
        global_value(t, first, "REFERENCE_LOG"@) == set_or(text_option(t.reference_log), set_or((match t.monitor { Some(x) => text_option(x.reference_log), None => None }), first)),
        global_value(t, first, "LOCK_DIR"@) == set_or(text_option(t.lock_dir), first),
        global_value(t, first, "DUT_DIR"@) == set_or(text_option(t.dut_dir), first),
        global_value(t, first, "DUT_ALIAS"@) == first,
        global_value(t, first, "DUT_ALIASES"@) == first,
{
    lemma_file_key_tags();
}

/// Law: the address and the credentials of a file's first host are found under their keys.
#[verifier::rlimit(50)]
pub proof fn law_global_host_values(t: TargetToml)
    ensures
        ({
            let m = t.globals(Map::empty());
            let none = None::<Seq<char>>;
            t.hosts().len() > 0 ==> {
                let x = t.hosts()[0];
                &&& value_at(m, "DEV_HOST_ALIAS"@) == text_option(x.alias)
                &&& value_at(m, "DEV_HOST_IP"@) == text_option(x.ip)
                &&& value_at(m, "DEV_HOST_USER"@) == text_option(x.user)
                &&& value_at(m, "DEV_HOST_PASS"@) == text_option(x.pass)
            }
        }),
{
    lemma_first_host(t);
    lemma_file_key_tags();
    lemma_global_at(t, "DEV_HOST_ALIAS"@);
    lemma_global_host_keys(t, value_at(first_host(t), "DEV_HOST_ALIAS"@));
    lemma_global_at(t, "DEV_HOST_IP"@);
    lemma_global_host_keys(t, value_at(first_host(t), "DEV_HOST_IP"@));
    lemma_global_at(t, "DEV_HOST_USER"@);
    lemma_global_host_keys(t, value_at(first_host(t), "DEV_HOST_USER"@));
    lemma_global_at(t, "DEV_HOST_PASS"@);
    lemma_global_host_keys(t, value_at(first_host(t), "DEV_HOST_PASS"@));
}

/// Law: each value of a file's global serial section is found under its key, and a key that
/// the section does not set is not there.
#[verifier::rlimit(50)]
pub proof fn law_global_serial_values(t: TargetToml)
    ensures
        ({
            let m = t.globals(Map::empty());
            let none = None::<Seq<char>>;
            &&& value_at(m, "SERIAL_IP"@) == (match t.serial { Some(x) => text_option(x.ip), None => none })
            &&& value_at(m, "SERIAL_PORT"@) == (match t.serial { Some(x) => value_option(x.port), None => none })
            &&& value_at(m, "SERIAL_BAUDRATE"@) == (match t.serial { Some(x) => value_option(x.baudrate), None => none })
        }),
{
    lemma_first_host(t);
    lemma_file_key_tags();
    lemma_global_at(t, "SERIAL_IP"@);
    lemma_global_serial_keys(t, value_at(first_host(t), "SERIAL_IP"@));
    lemma_global_at(t, "SERIAL_PORT"@);
    lemma_global_serial_keys(t, value_at(first_host(t), "SERIAL_PORT"@));
    lemma_global_at(t, "SERIAL_BAUDRATE"@);
    lemma_global_serial_keys(t, value_at(first_host(t), "SERIAL_BAUDRATE"@));
}

/// Law: each value of a file's global target section is found under its key, and a key that
/// the section does not set is not there.
#[verifier::rlimit(50)]
pub proof fn law_global_target_values(t: TargetToml)
    ensures
        ({
            let m = t.globals(Map::empty());
            let none = None::<Seq<char>>;
            &&& value_at(m, "LOGIN_USER"@) == (match t.target { Some(x) => text_option(x.login_user), None => none })
            &&& value_at(m, "LOGIN_PASS"@) == (match t.target { Some(x) => text_option(x.login_pass), None => none })
            &&& value_at(m, "LOGIN_PROMPT"@) == (match t.target { Some(x) => text_option(x.login_prompt), None => none })
        }),
{
    lemma_first_host(t);
    lemma_file_key_tags();
    lemma_global_at(t, "LOGIN_USER"@);
    lemma_global_target_keys(t, value_at(first_host(t), "LOGIN_USER"@));
    lemma_global_at(t, "LOGIN_PASS"@);
    lemma_global_target_keys(t, value_at(first_host(t), "LOGIN_PASS"@));
    lemma_global_at(t, "LOGIN_PROMPT"@);
    lemma_global_target_keys(t, value_at(first_host(t), "LOGIN_PROMPT"@));
}

/// Law: each value of a file's global uboot section is found under its key, and a key that
/// the section does not set is not there.
#[verifier::rlimit(50)]
pub proof fn law_global_uboot_values(t: TargetToml)
    ensures
        ({
            let m = t.globals(Map::empty());
            let none = None::<Seq<char>>;
            &&& value_at(m, "UBOOT_INTERRUPT_CHAR"@) == (match t.uboot { Some(x) => text_option(x.interrupt_char), None => none })
            &&& value_at(m, "UBOOT_INTERRUPT_STRATEGY"@) == (match t.uboot { Some(x) => text_option(x.interrupt_strategy), None => none })
        }),
{
    lemma_first_host(t);
    lemma_file_key_tags();
    lemma_global_at(t, "UBOOT_INTERRUPT_CHAR"@);
    lemma_global_uboot_keys(t, value_at(first_host(t), "UBOOT_INTERRUPT_CHAR"@));
    lemma_global_at(t, "UBOOT_INTERRUPT_STRATEGY"@);
    lemma_global_uboot_keys(t, value_at(first_host(t), "UBOOT_INTERRUPT_STRATEGY"@));
}

/// Law: each value of a file's global relay section is found under its key, and a key that
/// the section does not set is not there.
#[verifier::rlimit(50)]
pub proof fn law_global_relay_values(t: TargetToml)
    ensures
        ({
            let m = t.globals(Map::empty());
            let none = None::<Seq<char>>;
            &&& value_at(m, "RELAY_TYPE"@) == (match t.relay { Some(x) => text_option(x.relay_type), None => none })
            &&& value_at(m, "RELAY_PORT"@) == (match t.relay { Some(x) => number_text(match x.port { Some(n) => Some(n as nat), None => None }), None => none })
            &&& value_at(m, "RELAY_IP"@) == (match t.relay { Some(x) => text_option(x.ip), None => none })
            &&& value_at(m, "RESET_CHANNEL"@) == (match t.relay { Some(x) => number_text(channel(x.reset_ch, x.reset_channel)), None => none })
            &&& value_at(m, "MASKROM_CHANNEL"@) == (match t.relay { Some(x) => number_text(channel(x.maskrom_ch, x.maskrom_channel)), None => none })
            &&& value_at(m, "RECOVERY_CHANNEL"@) == (match t.relay { Some(x) => number_text(channel(x.recovery_ch, x.recovery_channel)), None => none })
            &&& value_at(m, "RESET_TIME_MS"@) == (match t.relay { Some(x) => number_text(match x.reset_time_ms { Some(n) => Some(n as nat), None => None }), None => none })
        }),
{
    lemma_first_host(t);
    lemma_file_key_tags();
    lemma_global_at(t, "RELAY_TYPE"@);
    lemma_global_relay_keys(t, value_at(first_host(t), "RELAY_TYPE"@));
    lemma_global_at(t, "RELAY_PORT"@);
    lemma_global_relay_keys(t, value_at(first_host(t), "RELAY_PORT"@));
    lemma_global_at(t, "RELAY_IP"@);
    lemma_global_relay_keys(t, value_at(first_host(t), "RELAY_IP"@));
    lemma_global_at(t, "RESET_CHANNEL"@);
    lemma_global_relay_keys(t, value_at(first_host(t), "RESET_CHANNEL"@));
    lemma_global_at(t, "MASKROM_CHANNEL"@);
    lemma_global_relay_keys(t, value_at(first_host(t), "MASKROM_CHANNEL"@));
    lemma_global_at(t, "RECOVERY_CHANNEL"@);
    lemma_global_relay_keys(t, value_at(first_host(t), "RECOVERY_CHANNEL"@));
    lemma_global_at(t, "RESET_TIME_MS"@);
    lemma_global_relay_keys(t, value_at(first_host(t), "RESET_TIME_MS"@));
}

/// Law: each value of a file's global monitor section is found under its key, and a key that
/// the section does not set is not there.
#[verifier::rlimit(50)]
pub proof fn law_global_monitor_values(t: TargetToml)
    ensures
        ({
            let m = t.globals(Map::empty());
            let none = None::<Seq<char>>;
            &&& value_at(m, "HANG_TIMEOUT"@) == (match t.monitor { Some(x) => number_text(match x.hang_timeout { Some(n) => Some(n as nat), None => None }), None => none })
            &&& value_at(m, "HANG_HYSTERESIS"@) == (match t.monitor { Some(x) => number_text(match x.hang_hysteresis { Some(n) => Some(n as nat), None => None }), None => none })
            &&& value_at(m, "MAX_ARCHIVED_LOGS"@) == (match t.monitor { Some(x) => number_text(match x.max_archived_logs { Some(n) => Some(n as nat), None => None }), None => none })
            &&& value_at(m, "MAX_LOG_FILE_SIZE"@) == (match t.monitor { Some(x) => number_text(match x.max_log_file_size { Some(n) => Some(n as nat), None => None }), None => none })
        }),
{
    lemma_first_host(t);
    lemma_file_key_tags();
    lemma_global_at(t, "HANG_TIMEOUT"@);
    lemma_global_monitor_keys(t, value_at(first_host(t), "HANG_TIMEOUT"@));
    lemma_global_at(t, "HANG_HYSTERESIS"@);
    lemma_global_monitor_keys(t, value_at(first_host(t), "HANG_HYSTERESIS"@));
    lemma_global_at(t, "MAX_ARCHIVED_LOGS"@);
    lemma_global_monitor_keys(t, value_at(first_host(t), "MAX_ARCHIVED_LOGS"@));
    lemma_global_at(t, "MAX_LOG_FILE_SIZE"@);
    lemma_global_monitor_keys(t, value_at(first_host(t), "MAX_LOG_FILE_SIZE"@));
}

/// Law: each value of a file's global flash section is found under its key, and a key that
/// the section does not set is not there.
#[verifier::rlimit(50)]
pub proof fn law_global_flash_values(t: TargetToml)
    ensures
        ({
            let m = t.globals(Map::empty());
            let none = None::<Seq<char>>;
            &&& value_at(m, "FLASH_TOOL"@) == (match t.flash { Some(x) => text_option(x.tool), None => none })
            &&& value_at(m, "FLASH_FULL_IMAGE_CMD"@) == (match t.flash { Some(x) => text_option(x.full_image_cmd), None => none })
            &&& value_at(m, "FLASH_KERNEL_IMAGE_CMD"@) == (match t.flash { Some(x) => text_option(x.kernel_image_cmd), None => none })
            &&& value_at(m, "FLASH_LOADER_BIN"@) == (match t.flash { Some(x) => text_option(x.loader_bin), None => none })
            &&& value_at(m, "FLASH_LOADER_CMD"@) == (match t.flash { Some(x) => text_option(x.loader_cmd), None => none })
            &&& value_at(m, "FLASH_LIST_DEVICES_CMD"@) == (match t.flash { Some(x) => text_option(x.list_devices_cmd), None => none })
            &&& value_at(m, "FLASH_UPLOAD_DIR"@) == (match t.flash { Some(x) => text_option(x.upload_dir), None => none })
        }),
{
    lemma_first_host(t);
    lemma_file_key_tags();
    lemma_global_at(t, "FLASH_TOOL"@);
    lemma_global_flash_keys(t, value_at(first_host(t), "FLASH_TOOL"@));
    lemma_global_at(t, "FLASH_FULL_IMAGE_CMD"@);
    lemma_global_flash_keys(t, value_at(first_host(t), "FLASH_FULL_IMAGE_CMD"@));
    lemma_global_at(t, "FLASH_KERNEL_IMAGE_CMD"@);
    lemma_global_flash_keys(t, value_at(first_host(t), "FLASH_KERNEL_IMAGE_CMD"@));
    lemma_global_at(t, "FLASH_LOADER_BIN"@);
    lemma_global_flash_keys(t, value_at(first_host(t), "FLASH_LOADER_BIN"@));
    lemma_global_at(t, "FLASH_LOADER_CMD"@);
    lemma_global_flash_keys(t, value_at(first_host(t), "FLASH_LOADER_CMD"@));
    lemma_global_at(t, "FLASH_LIST_DEVICES_CMD"@);
    lemma_global_flash_keys(t, value_at(first_host(t), "FLASH_LIST_DEVICES_CMD"@));
    lemma_global_at(t, "FLASH_UPLOAD_DIR"@);
    lemma_global_flash_keys(t, value_at(first_host(t), "FLASH_UPLOAD_DIR"@));
}

/// Law: each value of a file's global control section is found under its key, and a key that
/// the section does not set is not there.
#[verifier::rlimit(50)]
pub proof fn law_global_control_values(t: TargetToml)
    ensures
        ({
            let m = t.globals(Map::empty());
            let none = None::<Seq<char>>;
            &&& value_at(m, "DEV_CTL"@) == (match t.control { Some(x) => text_option(x.dev_ctl), None => none })
        }),
{
    lemma_first_host(t);
    lemma_file_key_tags();
    lemma_global_at(t, "DEV_CTL"@);
    lemma_global_control_keys(t, value_at(first_host(t), "DEV_CTL"@));
}

/// Law: the paths that a file names are found under their keys; the log of a file stands before
/// that of its monitor section.
#[verifier::rlimit(50)]
pub proof fn law_global_file_values(t: TargetToml)
    ensures
        ({
            let m = t.globals(Map::empty());
            let none = None::<Seq<char>>;
            &&& value_at(m, "REFERENCE_LOG"@) == set_or(text_option(t.reference_log), (match t.monitor { Some(x) => text_option(x.reference_log), None => none }))
            &&& value_at(m, "LOCK_DIR"@) == text_option(t.lock_dir)
            &&& value_at(m, "DUT_DIR"@) == text_option(t.dut_dir)
            &&& value_at(m, "DUT_ALIAS"@) is None
            &&& value_at(m, "DUT_ALIASES"@) is None
        }),
{
    lemma_first_host(t);
    lemma_file_key_tags();
    lemma_global_at(t, "REFERENCE_LOG"@);
    lemma_global_file_keys(t, value_at(first_host(t), "REFERENCE_LOG"@));
    lemma_global_at(t, "LOCK_DIR"@);
    lemma_global_file_keys(t, value_at(first_host(t), "LOCK_DIR"@));
    lemma_global_at(t, "DUT_DIR"@);
    lemma_global_file_keys(t, value_at(first_host(t), "DUT_DIR"@));
    lemma_global_at(t, "DUT_ALIAS"@);
    lemma_global_file_keys(t, value_at(first_host(t), "DUT_ALIAS"@));
    lemma_global_at(t, "DUT_ALIASES"@);
    lemma_global_file_keys(t, value_at(first_host(t), "DUT_ALIASES"@));
}

spec fn entry_value(d: DutToml, first: Option<Seq<char>>, q: Seq<char>) -> Option<Seq<char>> {
    let v = set_or(under("DUT_ALIAS"@, text_option(d.alias), q), first);
    let v = set_or(
        under(
            "DUT_DIR"@,
            match (d.dut_dir, d.alias) {
                (None, Some(a)) => Some(".dut-serial/"@ + a@),
                _ => None,
            },
            q,
        ),
        v,
    );
    let v = set_or(control_value(d.control, q), set_or(flash_value(d.flash, q), set_or(monitor_value(d.monitor, q), set_or(relay_value(d.relay, q), set_or(target_value(d.target, q), set_or(serial_value(d.serial, q), v))))));
    let v = set_or(under("REFERENCE_LOG"@, text_option(d.reference_log), q), v);
    set_or(under("DUT_DIR"@, text_option(d.dut_dir), q), v)
}

proof fn lemma_entry_puts(d: DutToml, m: Values, w: Values, q: Seq<char>)
    ensures
        ({
            let a = put(w, "REFERENCE_LOG"@, text_option(d.reference_log));
            let b = put(a, "DUT_DIR"@, text_option(d.dut_dir));
            value_at(b, q) == set_or(
                under("DUT_DIR"@, text_option(d.dut_dir), q),
                set_or(under("REFERENCE_LOG"@, text_option(d.reference_log), q), value_at(w, q)),
            )
        }),
        d.alias matches Some(a) ==> {
            &&& value_at(m.insert("DUT_ALIAS"@, a@), q) == set_or(
                under("DUT_ALIAS"@, Some(a@), q),
                value_at(m, q),
            )
            &&& value_at(
                m.insert("DUT_ALIAS"@, a@).insert("DUT_DIR"@, ".dut-serial/"@ + a@),
                q,
            ) == set_or(
                under("DUT_DIR"@, Some(".dut-serial/"@ + a@), q),
                set_or(under("DUT_ALIAS"@, Some(a@), q), value_at(m, q)),
            )
        },
{
    lemma_put();
}

proof fn lemma_entry_at(d: DutToml, m: Values, q: Seq<char>)
    ensures
        value_at(d.onto(m), q) == entry_value(d, value_at(m, q), q),
{
    let m1 = match d.alias {
        Some(a) => {
            let x = m.insert("DUT_ALIAS"@, a@);
            if d.dut_dir is None {
                x.insert("DUT_DIR"@, ".dut-serial/"@ + a@)
            } else {
                x
            }
        },
        None => m,
    };
    let m2 = SerialToml::option_onto(d.serial, m1);
    lemma_serial_at(d.serial, m1, q);
    let m3 = TargetCredsToml::option_onto(d.target, m2);
    lemma_target_at(d.target, m2, q);
    let m4 = RelayToml::option_onto(d.relay, m3);
    lemma_relay_at(d.relay, m3, q);
    let m5 = MonitorToml::option_onto(d.monitor, m4);
    lemma_monitor_at(d.monitor, m4, q);
    let m6 = FlashToml::option_onto(d.flash, m5);
    lemma_flash_at(d.flash, m5, q);
    let m7 = ControlToml::option_onto(d.control, m6);
    lemma_control_at(d.control, m6, q);
    lemma_entry_puts(d, m, m7, q);
}

#[verifier::rlimit(50)]
proof fn lemma_entry_serial_keys(d: DutToml, first: Option<Seq<char>>)
    ensures
        entry_value(d, first, "SERIAL_IP"@) == set_or((match d.serial { Some(x) => text_option(x.ip), None => None }), first),
        entry_value(d, first, "SERIAL_PORT"@) == set_or((match d.serial { Some(x) => value_option(x.port), None => None }), first),
        entry_value(d, first, "SERIAL_BAUDRATE"@) == set_or((match d.serial { Some(x) => value_option(x.baudrate), None => None }), first),
{
    lemma_file_key_tags();
}

/// Law: each value of a DUT's own serial section takes the place of the global one, and a
/// value that it does not set stays.
#[verifier::rlimit(50)]
pub proof fn law_entry_serial_values(d: DutToml, m: Values)
    ensures
        ({
            let w = d.onto(m);
            let none = None::<Seq<char>>;
            &&& value_at(w, "SERIAL_IP"@) == set_or((match d.serial { Some(x) => text_option(x.ip), None => none }), value_at(m, "SERIAL_IP"@))
            &&& value_at(w, "SERIAL_PORT"@) == set_or((match d.serial { Some(x) => value_option(x.port), None => none }), value_at(m, "SERIAL_PORT"@))
            &&& value_at(w, "SERIAL_BAUDRATE"@) == set_or((match d.serial { Some(x) => value_option(x.baudrate), None => none }), value_at(m, "SERIAL_BAUDRATE"@))
        }),
{
    lemma_entry_at(d, m, "SERIAL_IP"@);
    lemma_entry_serial_keys(d, value_at(m, "SERIAL_IP"@));
    lemma_entry_at(d, m, "SERIAL_PORT"@);
    lemma_entry_serial_keys(d, value_at(m, "SERIAL_PORT"@));
    lemma_entry_at(d, m, "SERIAL_BAUDRATE"@);
    lemma_entry_serial_keys(d, value_at(m, "SERIAL_BAUDRATE"@));
}

#[verifier::rlimit(50)]
proof fn lemma_entry_target_keys(d: DutToml, first: Option<Seq<char>>)
    ensures
        entry_value(d, first, "LOGIN_USER"@) == set_or((match d.target { Some(x) => text_option(x.login_user), None => None }), first),
        entry_value(d, first, "LOGIN_PASS"@) == set_or((match d.target { Some(x) => text_option(x.login_pass), None => None }), first),
        entry_value(d, first, "LOGIN_PROMPT"@) == set_or((match d.target { Some(x) => text_option(x.login_prompt), None => None }), first),
{
    lemma_file_key_tags();
}

/// Law: each value of a DUT's own target section takes the place of the global one, and a
/// value that it does not set stays.
#[verifier::rlimit(50)]
pub proof fn law_entry_target_values(d: DutToml, m: Values)
    ensures
        ({
            let w = d.onto(m);
            let none = None::<Seq<char>>;
            &&& value_at(w, "LOGIN_USER"@) == set_or((match d.target { Some(x) => text_option(x.login_user), None => none }), value_at(m, "LOGIN_USER"@))
            &&& value_at(w, "LOGIN_PASS"@) == set_or((match d.target { Some(x) => text_option(x.login_pass), None => none }), value_at(m, "LOGIN_PASS"@))
            &&& value_at(w, "LOGIN_PROMPT"@) == set_or((match d.target { Some(x) => text_option(x.login_prompt), None => none }), value_at(m, "LOGIN_PROMPT"@))
        }),
{
    lemma_entry_at(d, m, "LOGIN_USER"@);
    lemma_entry_target_keys(d, value_at(m, "LOGIN_USER"@));
    lemma_entry_at(d, m, "LOGIN_PASS"@);
    lemma_entry_target_keys(d, value_at(m, "LOGIN_PASS"@));
    lemma_entry_at(d, m, "LOGIN_PROMPT"@);
    lemma_entry_target_keys(d, value_at(m, "LOGIN_PROMPT"@));
}

#[verifier::rlimit(50)]
proof fn lemma_entry_relay_keys(d: DutToml, first: Option<Seq<char>>)
    ensures
        entry_value(d, first, "RELAY_TYPE"@) == set_or((match d.relay { Some(x) => text_option(x.relay_type), None => None }), first),
        entry_value(d, first, "RELAY_PORT"@) == set_or((match d.relay { Some(x) => number_text(match x.port { Some(n) => Some(n as nat), None => None }), None => None }), first),
        entry_value(d, first, "RELAY_IP"@) == set_or((match d.relay { Some(x) => text_option(x.ip), None => None }), first),
        entry_value(d, first, "RESET_CHANNEL"@) == set_or((match d.relay { Some(x) => number_text(channel(x.reset_ch, x.reset_channel)), None => None }), first),
        entry_value(d, first, "MASKROM_CHANNEL"@) == set_or((match d.relay { Some(x) => number_text(channel(x.maskrom_ch, x.maskrom_channel)), None => None }), first),
        entry_value(d, first, "RECOVERY_CHANNEL"@) == set_or((match d.relay { Some(x) => number_text(channel(x.recovery_ch, x.recovery_channel)), None => None }), first),
        entry_value(d, first, "RESET_TIME_MS"@) == set_or((match d.relay { Some(x) => number_text(match x.reset_time_ms { Some(n) => Some(n as nat), None => None }), None => None }), first),
{
    lemma_file_key_tags();
}

/// Law: each value of a DUT's own relay section takes the place of the global one, and a
/// value that it does not set stays.
#[verifier::rlimit(50)]
pub proof fn law_entry_relay_values(d: DutToml, m: Values)
    ensures
        ({
            let w = d.onto(m);
            let none = None::<Seq<char>>;
            &&& value_at(w, "RELAY_TYPE"@) == set_or((match d.relay { Some(x) => text_option(x.relay_type), None => none }), value_at(m, "RELAY_TYPE"@))
            &&& value_at(w, "RELAY_PORT"@) == set_or((match d.relay { Some(x) => number_text(match x.port { Some(n) => Some(n as nat), None => None }), None => none }), value_at(m, "RELAY_PORT"@))
            &&& value_at(w, "RELAY_IP"@) == set_or((match d.relay { Some(x) => text_option(x.ip), None => none }), value_at(m, "RELAY_IP"@))
            &&& value_at(w, "RESET_CHANNEL"@) == set_or((match d.relay { Some(x) => number_text(channel(x.reset_ch, x.reset_channel)), None => none }), value_at(m, "RESET_CHANNEL"@))
            &&& value_at(w, "MASKROM_CHANNEL"@) == set_or((match d.relay { Some(x) => number_text(channel(x.maskrom_ch, x.maskrom_channel)), None => none }), value_at(m, "MASKROM_CHANNEL"@))
            &&& value_at(w, "RECOVERY_CHANNEL"@) == set_or((match d.relay { Some(x) => number_text(channel(x.recovery_ch, x.recovery_channel)), None => none }), value_at(m, "RECOVERY_CHANNEL"@))
            &&& value_at(w, "RESET_TIME_MS"@) == set_or((match d.relay { Some(x) => number_text(match x.reset_time_ms { Some(n) => Some(n as nat), None => None }), None => none }), value_at(m, "RESET_TIME_MS"@))
        }),
{
    lemma_entry_at(d, m, "RELAY_TYPE"@);
    lemma_entry_relay_keys(d, value_at(m, "RELAY_TYPE"@));
    lemma_entry_at(d, m, "RELAY_PORT"@);
    lemma_entry_relay_keys(d, value_at(m, "RELAY_PORT"@));
    lemma_entry_at(d, m, "RELAY_IP"@);
    lemma_entry_relay_keys(d, value_at(m, "RELAY_IP"@));
    lemma_entry_at(d, m, "RESET_CHANNEL"@);
    lemma_entry_relay_keys(d, value_at(m, "RESET_CHANNEL"@));
    lemma_entry_at(d, m, "MASKROM_CHANNEL"@);
    lemma_entry_relay_keys(d, value_at(m, "MASKROM_CHANNEL"@));
    lemma_entry_at(d, m, "RECOVERY_CHANNEL"@);
    lemma_entry_relay_keys(d, value_at(m, "RECOVERY_CHANNEL"@));
    lemma_entry_at(d, m, "RESET_TIME_MS"@);
    lemma_entry_relay_keys(d, value_at(m, "RESET_TIME_MS"@));
}

#[verifier::rlimit(50)]
proof fn lemma_entry_monitor_keys(d: DutToml, first: Option<Seq<char>>)
    ensures
        entry_value(d, first, "HANG_TIMEOUT"@) == set_or((match d.monitor { Some(x) => number_text(match x.hang_timeout { Some(n) => Some(n as nat), None => None }), None => None }), first),
        entry_value(d, first, "HANG_HYSTERESIS"@) == set_or((match d.monitor { Some(x) => number_text(match x.hang_hysteresis { Some(n) => Some(n as nat), None => None }), None => None }), first),
        entry_value(d, first, "MAX_ARCHIVED_LOGS"@) == set_or((match d.monitor { Some(x) => number_text(match x.max_archived_logs { Some(n) => Some(n as nat), None => None }), None => None }), first),
        entry_value(d, first, "MAX_LOG_FILE_SIZE"@) == set_or((match d.monitor { Some(x) => number_text(match x.max_log_file_size { Some(n) => Some(n as nat), None => None }), None => None }), first),
{
    lemma_file_key_tags();
}

/// Law: each value of a DUT's own monitor section takes the place of the global one, and a
/// value that it does not set stays.
#[verifier::rlimit(50)]
pub proof fn law_entry_monitor_values(d: DutToml, m: Values)
    ensures
        ({
            let w = d.onto(m);
            let none = None::<Seq<char>>;
            &&& value_at(w, "HANG_TIMEOUT"@) == set_or((match d.monitor { Some(x) => number_text(match x.hang_timeout { Some(n) => Some(n as nat), None => None }), None => none }), value_at(m, "HANG_TIMEOUT"@))
            &&& value_at(w, "HANG_HYSTERESIS"@) == set_or((match d.monitor { Some(x) => number_text(match x.hang_hysteresis { Some(n) => Some(n as nat), None => None }), None => none }), value_at(m, "HANG_HYSTERESIS"@))
            &&& value_at(w, "MAX_ARCHIVED_LOGS"@) == set_or((match d.monitor { Some(x) => number_text(match x.max_archived_logs { Some(n) => Some(n as nat), None => None }), None => none }), value_at(m, "MAX_ARCHIVED_LOGS"@))
            &&& value_at(w, "MAX_LOG_FILE_SIZE"@) == set_or((match d.monitor { Some(x) => number_text(match x.max_log_file_size { Some(n) => Some(n as nat), None => None }), None => none }), value_at(m, "MAX_LOG_FILE_SIZE"@))
        }),
{
    lemma_entry_at(d, m, "HANG_TIMEOUT"@);
    lemma_entry_monitor_keys(d, value_at(m, "HANG_TIMEOUT"@));
    lemma_entry_at(d, m, "HANG_HYSTERESIS"@);
    lemma_entry_monitor_keys(d, value_at(m, "HANG_HYSTERESIS"@));
    lemma_entry_at(d, m, "MAX_ARCHIVED_LOGS"@);
    lemma_entry_monitor_keys(d, value_at(m, "MAX_ARCHIVED_LOGS"@));
    lemma_entry_at(d, m, "MAX_LOG_FILE_SIZE"@);
    lemma_entry_monitor_keys(d, value_at(m, "MAX_LOG_FILE_SIZE"@));
}

#[verifier::rlimit(50)]
proof fn lemma_entry_flash_keys(d: DutToml, first: Option<Seq<char>>)
    ensures
        entry_value(d, first, "FLASH_TOOL"@) == set_or((match d.flash { Some(x) => text_option(x.tool), None => None }), first),
        entry_value(d, first, "FLASH_FULL_IMAGE_CMD"@) == set_or((match d.flash { Some(x) => text_option(x.full_image_cmd), None => None }), first),
        entry_value(d, first, "FLASH_KERNEL_IMAGE_CMD"@) == set_or((match d.flash { Some(x) => text_option(x.kernel_image_cmd), None => None }), first),
        entry_value(d, first, "FLASH_LOADER_BIN"@) == set_or((match d.flash { Some(x) => text_option(x.loader_bin), None => None }), first),
        entry_value(d, first, "FLASH_LOADER_CMD"@) == set_or((match d.flash { Some(x) => text_option(x.loader_cmd), None => None }), first),
        entry_value(d, first, "FLASH_LIST_DEVICES_CMD"@) == set_or((match d.flash { Some(x) => text_option(x.list_devices_cmd), None => None }), first),
        entry_value(d, first, "FLASH_UPLOAD_DIR"@) == set_or((match d.flash { Some(x) => text_option(x.upload_dir), None => None }), first),
{
    lemma_file_key_tags();
}

/// Law: each value of a DUT's own flash section takes the place of the global one, and a
/// value that it does not set stays.
#[verifier::rlimit(50)]
pub proof fn law_entry_flash_values(d: DutToml, m: Values)
    ensures
        ({
            let w = d.onto(m);
            let none = None::<Seq<char>>;
            &&& value_at(w, "FLASH_TOOL"@) == set_or((match d.flash { Some(x) => text_option(x.tool), None => none }), value_at(m, "FLASH_TOOL"@))
            &&& value_at(w, "FLASH_FULL_IMAGE_CMD"@) == set_or((match d.flash { Some(x) => text_option(x.full_image_cmd), None => none }), value_at(m, "FLASH_FULL_IMAGE_CMD"@))
            &&& value_at(w, "FLASH_KERNEL_IMAGE_CMD"@) == set_or((match d.flash { Some(x) => text_option(x.kernel_image_cmd), None => none }), value_at(m, "FLASH_KERNEL_IMAGE_CMD"@))
            &&& value_at(w, "FLASH_LOADER_BIN"@) == set_or((match d.flash { Some(x) => text_option(x.loader_bin), None => none }), value_at(m, "FLASH_LOADER_BIN"@))
            &&& value_at(w, "FLASH_LOADER_CMD"@) == set_or((match d.flash { Some(x) => text_option(x.loader_cmd), None => none }), value_at(m, "FLASH_LOADER_CMD"@))
            &&& value_at(w, "FLASH_LIST_DEVICES_CMD"@) == set_or((match d.flash { Some(x) => text_option(x.list_devices_cmd), None => none }), value_at(m, "FLASH_LIST_DEVICES_CMD"@))
            &&& value_at(w, "FLASH_UPLOAD_DIR"@) == set_or((match d.flash { Some(x) => text_option(x.upload_dir), None => none }), value_at(m, "FLASH_UPLOAD_DIR"@))
        }),
{
    lemma_entry_at(d, m, "FLASH_TOOL"@);
    lemma_entry_flash_keys(d, value_at(m, "FLASH_TOOL"@));
    lemma_entry_at(d, m, "FLASH_FULL_IMAGE_CMD"@);
    lemma_entry_flash_keys(d, value_at(m, "FLASH_FULL_IMAGE_CMD"@));
    lemma_entry_at(d, m, "FLASH_KERNEL_IMAGE_CMD"@);
    lemma_entry_flash_keys(d, value_at(m, "FLASH_KERNEL_IMAGE_CMD"@));
    lemma_entry_at(d, m, "FLASH_LOADER_BIN"@);
    lemma_entry_flash_keys(d, value_at(m, "FLASH_LOADER_BIN"@));
    lemma_entry_at(d, m, "FLASH_LOADER_CMD"@);
    lemma_entry_flash_keys(d, value_at(m, "FLASH_LOADER_CMD"@));
    lemma_entry_at(d, m, "FLASH_LIST_DEVICES_CMD"@);
    lemma_entry_flash_keys(d, value_at(m, "FLASH_LIST_DEVICES_CMD"@));
    lemma_entry_at(d, m, "FLASH_UPLOAD_DIR"@);
    lemma_entry_flash_keys(d, value_at(m, "FLASH_UPLOAD_DIR"@));
}

#[verifier::rlimit(50)]
proof fn lemma_entry_control_keys(d: DutToml, first: Option<Seq<char>>)
    ensures
        entry_value(d, first, "DEV_CTL"@) == set_or((match d.control { Some(x) => text_option(x.dev_ctl), None => None }), first),
{
    lemma_file_key_tags();
}

/// Law: each value of a DUT's own control section takes the place of the global one, and a
/// value that it does not set stays.
#[verifier::rlimit(50)]
pub proof fn law_entry_control_values(d: DutToml, m: Values)
    ensures
        ({
            let w = d.onto(m);
            let none = None::<Seq<char>>;
            &&& value_at(w, "DEV_CTL"@) == set_or((match d.control { Some(x) => text_option(x.dev_ctl), None => none }), value_at(m, "DEV_CTL"@))
        }),
{
    lemma_entry_at(d, m, "DEV_CTL"@);
    lemma_entry_control_keys(d, value_at(m, "DEV_CTL"@));
}

/// Law: a DUT's own alias, log and directory take the place of the global ones; a
/// DUT with an alias and no directory has one named for it; the host, the lock and
/// the boot loader's settings stay.
#[verifier::rlimit(50)]
pub proof fn law_entry_paths(d: DutToml, m: Values)
    ensures
        ({
            let w = d.onto(m);
            &&& value_at(w, "REFERENCE_LOG"@) == set_or(
                text_option(d.reference_log),
                set_or(
                    (match d.monitor {
                        Some(x) => text_option(x.reference_log),
                        None => None::<Seq<char>>,
                    }),
                    value_at(m, "REFERENCE_LOG"@),
                ),
            )
            &&& value_at(w, "DUT_ALIAS"@) == set_or(
                text_option(d.alias),
                value_at(m, "DUT_ALIAS"@),
            )
            &&& value_at(w, "DUT_DIR"@) == (match (d.dut_dir, d.alias) {
                (Some(dir), _) => Some(dir@),
                (None, Some(a)) => Some(".dut-serial/"@ + a@),
                (None, None) => value_at(m, "DUT_DIR"@),
            })
            &&& value_at(w, "DUT_ALIASES"@) == value_at(m, "DUT_ALIASES"@)
            &&& value_at(w, "DEV_HOST_IP"@) == value_at(m, "DEV_HOST_IP"@)
            &&& value_at(w, "DEV_HOST_USER"@) == value_at(m, "DEV_HOST_USER"@)
            &&& value_at(w, "DEV_HOST_PASS"@) == value_at(m, "DEV_HOST_PASS"@)
            &&& value_at(w, "LOCK_DIR"@) == value_at(m, "LOCK_DIR"@)
            &&& value_at(w, "UBOOT_INTERRUPT_CHAR"@) == value_at(m, "UBOOT_INTERRUPT_CHAR"@)
        }),
{
    lemma_entry_at(d, m, "REFERENCE_LOG"@);
    lemma_entry_paths(d, value_at(m, "REFERENCE_LOG"@));
    lemma_entry_at(d, m, "DUT_ALIAS"@);
    lemma_entry_paths(d, value_at(m, "DUT_ALIAS"@));
    lemma_entry_at(d, m, "DUT_DIR"@);
    lemma_entry_paths(d, value_at(m, "DUT_DIR"@));
    lemma_entry_at(d, m, "DUT_ALIASES"@);
    lemma_entry_paths(d, value_at(m, "DUT_ALIASES"@));
    lemma_entry_at(d, m, "DEV_HOST_IP"@);
    lemma_entry_paths(d, value_at(m, "DEV_HOST_IP"@));
    lemma_entry_at(d, m, "DEV_HOST_USER"@);
    lemma_entry_paths(d, value_at(m, "DEV_HOST_USER"@));
    lemma_entry_at(d, m, "DEV_HOST_PASS"@);
    lemma_entry_paths(d, value_at(m, "DEV_HOST_PASS"@));
    lemma_entry_at(d, m, "LOCK_DIR"@);
    lemma_entry_paths(d, value_at(m, "LOCK_DIR"@));
    lemma_entry_at(d, m, "UBOOT_INTERRUPT_CHAR"@);
    lemma_entry_paths(d, value_at(m, "UBOOT_INTERRUPT_CHAR"@));
}

#[verifier::rlimit(50)]
proof fn lemma_entry_paths(d: DutToml, first: Option<Seq<char>>)
    ensures
        entry_value(d, first, "REFERENCE_LOG"@) == set_or(text_option(d.reference_log), set_or((match d.monitor { Some(x) => text_option(x.reference_log), None => None }), first)),
        entry_value(d, first, "DUT_ALIAS"@) == set_or(text_option(d.alias), first),
        entry_value(d, first, "DUT_DIR"@) == (match (d.dut_dir, d.alias) {
            (Some(dir), _) => Some(dir@),
            (None, Some(a)) => Some(".dut-serial/"@ + a@),
            (None, None) => first,
        }),
        entry_value(d, first, "DUT_ALIASES"@) == first,
        entry_value(d, first, "DEV_HOST_IP"@) == first,
        entry_value(d, first, "DEV_HOST_USER"@) == first,
        entry_value(d, first, "DEV_HOST_PASS"@) == first,
        entry_value(d, first, "LOCK_DIR"@) == first,
        entry_value(d, first, "UBOOT_INTERRUPT_CHAR"@) == first,
{
    lemma_file_key_tags();
}

/// Law: the values of a file are its global ones; where it lists DUTs, their
/// aliases are listed in order, and the first of them adds its own values.
pub proof fn law_file_values(t: TargetToml)
    ensures
        t.dut is None || t.dut->0@.len() == 0 ==> t.values() == t.globals(Map::empty()),
        t.dut matches Some(duts) ==> duts@.len() > 0 ==> {
            let listed = if aliases_of(duts@).len() > 0 {
                t.globals(Map::empty()).insert("DUT_ALIASES"@, joined(aliases_of(duts@), ","@))
            } else {
                t.globals(Map::empty())
            };
            t.values() == duts@[0].onto(listed)
        },
{
    lemma_file_key_tags();
    lemma_put();
    law_global_file_values(t);
    let m = t.globals(Map::empty());
    assert(value_at(m, "DUT_ALIAS"@) is None);
    if let Some(duts) = t.dut {
        let w = m.insert("DUT_ALIASES"@, joined(aliases_of(duts@), ","@));
        assert(value_at(w, "DUT_ALIAS"@) is None);
    }
}

/// Law: the aliases are those of the DUTs that have one, in order.
pub proof fn law_aliases_are_listed(duts: Seq<DutToml>, d: DutToml)
    ensures
        aliases_of(Seq::empty()) == Seq::<Seq<char>>::empty(),
        d.alias matches Some(a) ==> aliases_of(duts.push(d)) == aliases_of(duts).push(a@),
        d.alias is None ==> aliases_of(duts.push(d)) == aliases_of(duts),
{
    assert(duts.push(d).drop_last() =~= duts);
}

/// Law: what a DUT's entry says is what its configuration says. A channel is that
/// of the same button; an address, a port or a credential that the entry does not
/// name is the global one or the host's.
#[verifier::rlimit(50)]
pub proof fn law_dut_entry_is_read(d: DutToml, global: Values, hosts: Seq<HostView>)
    ensures
        ({
            let x = dut_of(d, global, hosts);
            &&& d.alias matches Some(a) ==> x.alias == a@
            &&& d.alias is None ==> x.alias == "unnamed"@
            &&& d.dut_dir matches Some(dir) ==> x.dut_dir == dir@
            &&& d.dut_dir is None ==> x.dut_dir == ".dut-serial/"@ + x.alias
            &&& (d.serial matches Some(s) && value_option(s.port) matches Some(p) && p.len() > 0)
                ==> x.serial_port == value_option(d.serial->0.port)->0
            &&& d.serial is None ==> x.serial_port == lookup(global, "SERIAL_PORT"@)
            &&& (d.serial matches Some(s) && s.ip matches Some(ip) && ip@.len() > 0)
                ==> x.serial_ip == d.serial->0.ip->0@
            &&& (d.relay matches Some(r) && r.ip matches Some(ip) && ip@.len() > 0) ==> x.relay_ip
                == d.relay->0.ip->0@
            &&& (d.relay matches Some(r) ==> r.ip is None) && lookup(global, "RELAY_IP"@).len() > 0
                ==> x.relay_ip == lookup(global, "RELAY_IP"@)
            &&& d.relay matches Some(r) ==> {
                &&& r.relay_type matches Some(ty) ==> x.relay_type == ty@
                &&& r.relay_type is None ==> x.relay_type == "usb-relay"@
                &&& r.port matches Some(p) ==> p > 0 ==> x.relay_port == p
                &&& channel(r.reset_ch, r.reset_channel) matches Some(n) ==> n > 0 ==> x.reset_ch == n
                &&& channel(r.maskrom_ch, r.maskrom_channel) matches Some(n) ==> x.maskrom_ch == n
                &&& channel(r.recovery_ch, r.recovery_channel) matches Some(n) ==> x.recovery_ch
                    == n
                &&& channel(r.power_ch, r.power_channel) matches Some(n) ==> n > 0 ==> x.power_ch
                    == n
                &&& channel(r.maskrom_ch, r.maskrom_channel) is None ==> x.maskrom_ch == 0
                &&& channel(r.recovery_ch, r.recovery_channel) is None ==> x.recovery_ch == 0
                &&& r.power_off_time_ms matches Some(n) ==> n >= 3000 ==> x.power_off_time_ms == n
                &&& r.power_off_time_ms is None ==> x.power_off_time_ms == 3000
            }
            &&& d.relay is None ==> x.relay_type == "usb-relay"@ && x.maskrom_ch == 0
                && x.recovery_ch == 0 && x.power_off_time_ms == 3000
            &&& (d.monitor matches Some(m) && m.reference_log matches Some(l) && l@.len() > 0)
                ==> x.reference_log == d.monitor->0.reference_log->0@
            &&& (d.monitor matches Some(m) ==> m.reference_log is None) ==> {
                &&& d.reference_log matches Some(l) ==> l@.len() > 0 ==> x.reference_log == l@
                &&& d.reference_log is None ==> x.reference_log == x.dut_dir
                    + "/reference-boot.log"@
            }
            &&& (d.target matches Some(c) && c.login_user is Some) ==> x.login_user
                == d.target->0.login_user->0@
            &&& (d.target matches Some(c) ==> c.login_user is None) ==> x.login_user == lookup(
                global,
                "LOGIN_USER"@,
            )
            &&& (d.target matches Some(c) && c.login_pass is Some) ==> x.login_pass
                == d.target->0.login_pass->0@
            &&& (d.target matches Some(c) ==> c.login_pass is None) ==> x.login_pass == lookup(
                global,
                "LOGIN_PASS"@,
            )
            &&& (d.monitor matches Some(m) && m.learner_stage_threshold is Some)
                ==> x.learner_stage_threshold == d.monitor->0.learner_stage_threshold->0@
            &&& (d.monitor matches Some(m) && m.learner_crash_threshold is Some)
                ==> x.learner_crash_threshold == d.monitor->0.learner_crash_threshold->0@
            &&& (d.monitor matches Some(m) && m.crash_patterns is Some) ==> x.crash_patterns == texts(
                d.monitor->0.crash_patterns->0@,
            )
        }),
{
    reveal_strlit("/reference-boot.log");
}

/// Law: a channel that a DUT leaves open is the global one.
pub proof fn law_open_channels_are_global(d: DutToml, global: Values, hosts: Seq<HostView>)
    requires
        d.relay is None,
    ensures
        ({
            let x = dut_of(d, global, hosts);
            &&& x.relay_port == number(global, "RELAY_PORT"@, u16::MAX as nat, 0)
            &&& x.reset_ch == number(global, "RESET_CHANNEL"@, u8::MAX as nat, 0)
            &&& x.power_ch == number(global, "POWER_CHANNEL"@, u8::MAX as nat, 0)
        }),
{
    lemma_number_bounded(global, "RELAY_PORT"@, u16::MAX as nat, 0);
    lemma_number_bounded(global, "RESET_CHANNEL"@, u8::MAX as nat, 0);
    lemma_number_bounded(global, "POWER_CHANNEL"@, u8::MAX as nat, 0);
}

/// Law: the channels in a file reach the buttons: what a DUT's entry sets is what
/// its configuration reads back under the key of the same button.
pub proof fn law_channels_reach_their_buttons(
    d: DutToml,
    r: RelayToml,
    global: Values,
    hosts: Seq<HostView>,
)
    requires
        d.relay == Some(r),
    ensures
        ({
            let m = dut_of(d, global, hosts).onto(global);
            &&& channel(r.reset_ch, r.reset_channel) matches Some(n) ==> n > 0 ==> number(
                m,
                "RESET_CHANNEL"@,
                255,
                0,
            ) == n
            &&& channel(r.maskrom_ch, r.maskrom_channel) matches Some(n) ==> n > 0 ==> number(
                m,
                "MASKROM_CHANNEL"@,
                255,
                0,
            ) == n
            &&& channel(r.recovery_ch, r.recovery_channel) matches Some(n) ==> n > 0 ==> number(
                m,
                "RECOVERY_CHANNEL"@,
                255,
                0,
            ) == n
            &&& channel(r.power_ch, r.power_channel) matches Some(n) ==> n > 0 ==> number(
                m,
                "POWER_CHANNEL"@,
                255,
                0,
            ) == n
        }),
{
    law_dut_entry_is_read(d, global, hosts);
    law_dut_values_win(dut_of(d, global, hosts), global);
}

/// Law: a DUT hangs on the first host of the alias that it names, else on the
/// first host; its address and credentials are that host's.
pub proof fn law_the_named_host_is_taken(
    d: DutToml,
    global: Values,
    hosts: Seq<HostView>,
    k: int,
)
    ensures
        (d.dev_host matches Some(a) && 0 <= k < hosts.len() && hosts[k].alias == a@ && forall|j: int|
            0 <= j < k ==> (#[trigger] hosts[j]).alias != a@) ==> {
            let x = dut_of(d, global, hosts);
            x.dev_host_alias == hosts[k].alias && x.dev_host_ip == hosts[k].ip && x.dev_host_user
                == hosts[k].user && x.dev_host_pass == hosts[k].pass
        },
        hosts.len() > 0 && (d.dev_host matches Some(a) ==> forall|j: int|
            0 <= j < hosts.len() ==> (#[trigger] hosts[j]).alias != a@) ==> {
            let x = dut_of(d, global, hosts);
            x.dev_host_ip == hosts[0].ip && x.dev_host_user == hosts[0].user && x.dev_host_pass
                == hosts[0].pass && x.dev_host_alias == hosts[0].alias
        },
        hosts.len() == 0 ==> dut_of(d, global, hosts).dev_host_ip.len() == 0,
{
    if let Some(a) = d.dev_host {
        lemma_host_named(hosts, a@, 0);
    }
}

proof fn lemma_host_named(hosts: Seq<HostView>, alias: Seq<char>, from: int)
    requires
        0 <= from,
    ensures
        match host_named(hosts, alias, from) {
            Some(h) => exists|k: int|
                from <= k < hosts.len() && #[trigger] hosts[k] == h && h.alias == alias && forall|j: int|
                    from <= j < k ==> (#[trigger] hosts[j]).alias != alias,
            None => forall|j: int| from <= j < hosts.len() ==> (#[trigger] hosts[j]).alias != alias,
        },
    decreases hosts.len() - from,
{
    if from < hosts.len() {
        if hosts[from].alias == alias {
            assert(hosts[from] == hosts[from]);
        } else {
            lemma_host_named(hosts, alias, from + 1);
        }
    }
}

/// Law: a file describes one DUT for each entry, in order, each read from its own
/// entry; a file without entries describes one made of its global values.
#[verifier::rlimit(50)]
pub proof fn law_one_dut_for_each_entry(t: TargetToml, i: int)
    ensures
        (t.dut matches Some(duts) && duts@.len() > 0) ==> file_duts(t).len() == t.dut->0@.len(),
        (t.dut matches Some(duts) && 0 <= i < duts@.len()) ==> file_duts(t)[i] == dut_of(
            t.dut->0@[i],
            t.values(),
            file_hosts(t),
        ),
        (t.dut matches Some(duts) ==> duts@.len() == 0) ==> file_duts(t).len() == 1 && {
            let x = file_duts(t)[0];
            let m = t.values();
            &&& x.serial_port == lookup(m, "SERIAL_PORT"@)
            &&& x.serial_ip == lookup(m, "SERIAL_IP"@)
            &&& x.relay_ip == lookup(m, "RELAY_IP"@)
            &&& x.login_user == lookup(m, "LOGIN_USER"@)
            &&& x.login_pass == lookup(m, "LOGIN_PASS"@)
            &&& x.reference_log == lookup(m, "REFERENCE_LOG"@)
            &&& x.relay_port == number(m, "RELAY_PORT"@, u16::MAX as nat, 0)
            &&& x.reset_ch == number(m, "RESET_CHANNEL"@, u8::MAX as nat, 0)
            &&& x.maskrom_ch == number(m, "MASKROM_CHANNEL"@, u8::MAX as nat, 0)
            &&& x.recovery_ch == number(m, "RECOVERY_CHANNEL"@, u8::MAX as nat, 0)
            &&& x.power_ch == number(m, "POWER_CHANNEL"@, u8::MAX as nat, 0)
            &&& m.contains_key("DUT_ALIAS"@) ==> x.alias == m["DUT_ALIAS"@]
            &&& !m.contains_key("DUT_ALIAS"@) ==> x.alias == "default"@
            &&& m.contains_key("RELAY_TYPE"@) ==> x.relay_type == m["RELAY_TYPE"@]
            &&& m.contains_key("DUT_DIR"@) ==> x.dut_dir == m["DUT_DIR"@]
        },
{
    let m = t.values();
    lemma_number_bounded(m, "RELAY_PORT"@, u16::MAX as nat, 0);
    lemma_number_bounded(m, "RESET_CHANNEL"@, u8::MAX as nat, 0);
    lemma_number_bounded(m, "MASKROM_CHANNEL"@, u8::MAX as nat, 0);
    lemma_number_bounded(m, "RECOVERY_CHANNEL"@, u8::MAX as nat, 0);
    lemma_number_bounded(m, "POWER_CHANNEL"@, u8::MAX as nat, 0);
}

/// Law: asking for a DUT by its alias yields that DUT's values, asking for one that
/// the file does not have, or for none, the file's.
pub proof fn law_the_named_dut_is_loaded(t: TargetToml, alias: Seq<char>, k: int)
    ensures
        trim(alias).len() > 0 && 0 <= k < file_duts(t).len() && file_duts(t)[k].alias == alias && (
        forall|j: int| 0 <= j < k ==> (#[trigger] file_duts(t)[j]).alias != alias) ==> loaded_values(
            Some(t),
            Some(alias),
        ) == file_duts(t)[k].onto(loaded_values(Some(t), None)),
        (forall|j: int|
            0 <= j < file_duts(t).len() ==> (#[trigger] file_duts(t)[j]).alias != alias)
            ==> loaded_values(Some(t), Some(alias)) == loaded_values(Some(t), None),
{
    lemma_dut_named(file_duts(t), alias, 0);
}

proof fn lemma_dut_named(duts: Seq<DutView>, alias: Seq<char>, from: int)
    requires
        0 <= from,
    ensures
        match dut_named(duts, alias, from) {
            Some(d) => exists|k: int|
                from <= k < duts.len() && #[trigger] duts[k] == d && d.alias == alias && forall|j: int|
                    from <= j < k ==> (#[trigger] duts[j]).alias != alias,
            None => forall|j: int| from <= j < duts.len() ==> (#[trigger] duts[j]).alias != alias,
        },
    decreases duts.len() - from,
{
    if from < duts.len() {
        if duts[from].alias == alias {
            assert(duts[from] == duts[from]);
        } else {
            lemma_dut_named(duts, alias, from + 1);
        }
    }
}

/// Law: the serial port is the configured one where it names a device or a port
/// number, and 2000 otherwise.
pub proof fn law_serial_ports(m: Values, n: nat, rest: Seq<char>)
    ensures
        lookup(m, "SERIAL_PORT"@) == decimal(n) && n <= 65535 ==> serial_target_of(m) == decimal(n),
        lookup(m, "SERIAL_PORT"@) == "/dev/"@ + rest ==> serial_target_of(m) == "/dev/"@ + rest,
        lookup(m, "SERIAL_PORT"@) == "COM"@ + rest ==> serial_target_of(m) == "COM"@ + rest,
        lookup(m, "SERIAL_PORT"@).len() == 0 ==> serial_target_of(m) == "2000"@,
        serial_target_of(m) == lookup(m, "SERIAL_PORT"@) || serial_target_of(m) == "2000"@,
{
    reveal_strlit("/dev/");
    reveal_strlit("COM");
    crate::text::lemma_decimal_digits(n);
    if n <= 65535 {
        crate::text::lemma_decimal_round_trip(n, u16::MAX as nat);
    }
    let a = "/dev/"@ + rest;
    assert(a.subrange(0, 5) =~= "/dev/"@);
    let b = "COM"@ + rest;
    assert(b.subrange(0, 3) =~= "COM"@);
}

/// Law: a number of a configuration is the one written under its key; a text that
/// is no such number gives the default.
pub proof fn law_numbers_are_read(m: Values, key: Seq<char>, n: nat, max: nat, default: nat)
    ensures
        value_at(m, key) == Some(decimal(n)) && n <= max ==> number(m, key, max, default) == n,
        value_at(m, key) == Some(decimal(n)) && n > max ==> number(m, key, max, default) == default,
        value_at(m, key) is None ==> number(m, key, max, default) == default,
{
    crate::text::law_parse_unsigned(n, max);
    crate::text::law_no_digits_no_number(max, 0, 0);
}

/// Law: every place that two DUTs share is reported, and each place that is reported is
/// shared, with all the DUTs at it.
pub proof fn law_shared_ports_are_reported(duts: Seq<DutView>, i: int, j: int)
    requires
        0 <= i < j < duts.len(),
    ensures
        duts[i].dev_host_ip + ":"@ + duts[i].serial_port == duts[j].dev_host_ip + ":"@
            + duts[j].serial_port ==> exists|c: int|
            0 <= c < conflicts(duts, duts).len() && (#[trigger] conflicts(duts, duts)[c]).0
                == duts[i].dev_host_ip + ":"@ + duts[i].serial_port,
        forall|c: int| #![trigger conflicts(duts, duts)[c]]
            0 <= c < conflicts(duts, duts).len() ==> conflicts(duts, duts)[c].1.len() > 1
                && conflicts(duts, duts)[c].1 == aliases_at(duts, conflicts(duts, duts)[c].0),
{
    lemma_conflicts_are(duts, duts);
    if port_key(duts[i]) == port_key(duts[j]) {
        let key = port_key(duts[i]);
        lemma_two_at(duts, key, i, j);
        lemma_conflict_found(duts, duts, key, i);
    }
}

proof fn lemma_conflicts_are(duts: Seq<DutView>, all: Seq<DutView>)
    ensures
        forall|c: int| #![trigger conflicts(duts, all)[c]]
            0 <= c < conflicts(duts, all).len() ==> conflicts(duts, all)[c].1.len() > 1
                && conflicts(duts, all)[c].1 == aliases_at(all, conflicts(duts, all)[c].0),
    decreases duts.len(),
{
    if duts.len() > 0 {
        lemma_conflicts_are(duts.drop_last(), all);
        let before = conflicts(duts.drop_last(), all);
        let now = conflicts(duts, all);
        assert forall|c: int| #![trigger now[c]] 0 <= c < now.len() implies now[c].1.len() > 1
            && now[c].1 == aliases_at(all, now[c].0) by {
            if c < before.len() {
                assert(now[c] == before[c]);
            }
        }
    }
}

proof fn lemma_at_least_one(duts: Seq<DutView>, key: Seq<char>, i: int)
    requires
        0 <= i < duts.len(),
        port_key(duts[i]) == key,
    ensures
        aliases_at(duts, key).len() > 0,
    decreases duts.len(),
{
    if i < duts.len() - 1 {
        lemma_at_least_one(duts.drop_last(), key, i);
    }
}

proof fn lemma_two_at(duts: Seq<DutView>, key: Seq<char>, i: int, j: int)
    requires
        0 <= i < j < duts.len(),
        port_key(duts[i]) == key,
        port_key(duts[j]) == key,
    ensures
        aliases_at(duts, key).len() > 1,
    decreases duts.len(),
{
    if j < duts.len() - 1 {
        lemma_two_at(duts.drop_last(), key, i, j);
    } else {
        lemma_at_least_one(duts.drop_last(), key, i);
    }
}

proof fn lemma_conflict_found(duts: Seq<DutView>, all: Seq<DutView>, key: Seq<char>, i: int)
    requires
        0 <= i < duts.len(),
        port_key(duts[i]) == key,
        aliases_at(all, key).len() > 1,
    ensures
        exists|c: int|
            0 <= c < conflicts(duts, all).len() && (#[trigger] conflicts(duts, all)[c]).0 == key,
    decreases duts.len(),
{
    let before = conflicts(duts.drop_last(), all);
    let now = conflicts(duts, all);
    if i < duts.len() - 1 {
        lemma_conflict_found(duts.drop_last(), all, key, i);
        let c = choose|c: int| 0 <= c < before.len() && (#[trigger] before[c]).0 == key;
        assert(now[c] == before[c]);
    } else if aliases_at(duts.drop_last(), key).len() == 0 {
        assert(now[before.len() as int].0 == key);
    } else {
        lemma_some_at(duts.drop_last(), key);
        let k = choose|k: int|
            0 <= k < duts.len() - 1 && port_key(#[trigger] duts.drop_last()[k]) == key;
        lemma_conflict_found(duts.drop_last(), all, key, k);
        let c = choose|c: int| 0 <= c < before.len() && (#[trigger] before[c]).0 == key;
        assert(now[c] == before[c]);
    }
}

proof fn lemma_some_at(duts: Seq<DutView>, key: Seq<char>)
    requires
        aliases_at(duts, key).len() > 0,
    ensures
        exists|k: int| 0 <= k < duts.len() && port_key(#[trigger] duts[k]) == key,
    decreases duts.len(),
{
    if port_key(duts.last()) == key {
        assert(port_key(duts[duts.len() - 1]) == key);
    } else {
        lemma_some_at(duts.drop_last(), key);
        let k = choose|k: int|
            0 <= k < duts.len() - 1 && port_key(#[trigger] duts.drop_last()[k]) == key;
        assert(duts[k] == duts.drop_last()[k]);
    }
}

/// Law: the byte that stops the boot loader: a single character stands for itself,
/// a number from 0 to 255 with two digits or more for that byte, in hexadecimal
/// behind `0x`, and Ctrl-C for everything else.
#[verifier::rlimit(50)]
pub proof fn law_interrupt_bytes(c: char, n: nat, h: nat)
    requires
        (c as u32) < 128,
        10 <= n,
        h < 16,
    ensures
        interrupt_byte(seq![c]) == c as u32,
        interrupt_byte("ctrl_c"@) == 3,
        interrupt_byte(decimal(n)) == (if n <= 255 {
            n
        } else {
            3
        }),
        h != 3 ==> interrupt_byte("0x0"@ + crate::text::hexadecimal(h)) == h,
{
    reveal_strlit("ctrl_c");
    reveal_strlit("0x03");
    reveal_strlit("0x");
    reveal_strlit("0x0");
    let one = seq![c];
    assert(one.len() == 1);
    crate::text::lemma_decimal_digits(n);
    let d = decimal(n);
    crate::text::law_decimal(n / 10, n % 10);
    crate::text::lemma_decimal_digits(n / 10);
    assert(n == (n / 10) * 10 + n % 10);
    assert(d.len() >= 2);
    assert(crate::text::is_digit(d[0]) && crate::text::is_digit(d[1]));
    assert("ctrl_c"@[0] == 'c');
    assert("0x03"@[1] == 'x' && "0x"@[1] == 'x');
    assert(!is_at(d, "0x"@, 0)) by {
        if is_at(d, "0x"@, 0) {
            assert(d.subrange(0, 2)[1] == 'x');
        }
    }
    crate::text::law_parse_unsigned(n, 255);
    let t = "0x0"@ + crate::text::hexadecimal(h);
    let x = crate::text::digit_char(h);
    assert(crate::text::hexadecimal(h) =~= seq![x]);
    assert(t =~= seq!['0', 'x', '0', x]);
    assert(is_at(t, "0x"@, 0)) by {
        assert(t.subrange(0, 2) =~= "0x"@);
    }
    let v = t.subrange(2, 4);
    assert(v =~= seq!['0', x]);
    assert(v.drop_last() =~= seq!['0']);
    assert(seq!['0'].drop_last() =~= Seq::<char>::empty());
    reveal_with_fuel(hex_value, 4);
    assert(hex_digit(x) == h);
    assert(hex_value(v) == h);
    assert(is_hex(v[0]) && is_hex(v[1]));
    assert(parse_hex_byte(v) == Some(h));
    if h != 3 {
        assert(t != "0x03"@) by {
            if t == "0x03"@ {
                assert(t[3] == '3');
            }
        }
        assert(t != "ctrl_c"@);
    }
}

/// Law: the values that hold where a file says nothing.
#[verifier::rlimit(50)]
pub proof fn law_default_values()
    ensures
        value_at(default_values(), "DEV_HOST_IP"@) == Some(""@),
        value_at(default_values(), "DEV_HOST_USER"@) == Some(""@),
        value_at(default_values(), "DEV_HOST_PASS"@) == Some(""@),
        value_at(default_values(), "SERIAL_PORT"@) == Some("2000"@),
        value_at(default_values(), "SERIAL_IP"@) == Some(""@),
        value_at(default_values(), "SERIAL_PROTOCOL"@) == Some("raw"@),
        value_at(default_values(), "SERIAL_BAUDRATE"@) == Some("1500000"@),
        value_at(default_values(), "LOGIN_USER"@) == Some("root"@),
        value_at(default_values(), "LOGIN_PASS"@) == Some(""@),
        value_at(default_values(), "LOGIN_PROMPT"@) == Some(""@),
        value_at(default_values(), "RELAY_PORT"@) == Some("0"@),
        value_at(default_values(), "RELAY_IP"@) == Some(""@),
        value_at(default_values(), "RESET_CHANNEL"@) == Some("0"@),
        value_at(default_values(), "MASKROM_CHANNEL"@) == Some("0"@),
        value_at(default_values(), "RECOVERY_CHANNEL"@) == Some("0"@),
        value_at(default_values(), "DEV_CTL"@) == Some(""@),
        value_at(default_values(), "HANG_TIMEOUT"@) == Some("60"@),
        value_at(default_values(), "HANG_HYSTERESIS"@) == Some("3"@),
        value_at(default_values(), "MAX_ARCHIVED_LOGS"@) == Some("10"@),
        value_at(default_values(), "MAX_LOG_FILE_SIZE"@) == Some("100"@),
        value_at(default_values(), "DUT_DIR"@) == Some(".dut-serial"@),
        value_at(default_values(), "UBOOT_INTERRUPT_STRATEGY"@) == Some("lava"@),
        value_at(default_values(), "UBOOT_INTERRUPT_CHAR"@) == Some("ctrl_c"@),
        value_at(default_values(), "LOCK_DIR"@) == Some("/tmp/debug-console/locks"@),
        value_at(default_values(), "REFERENCE_LOG"@) == Some(""@),
        value_at(default_values(), "FLASH_LOADER_CMD"@) == Some(""@),
        value_at(default_values(), "FLASH_LIST_DEVICES_CMD"@) == Some(""@),
        value_at(default_values(), "RESET_TIME_MS"@) == Some(""@),
        value_at(default_values(), "LEARNER_STAGE_THRESHOLD"@) == Some(""@),
        value_at(default_values(), "LEARNER_CRASH_THRESHOLD"@) == Some(""@),
{
    lemma_file_key_tags();
    lemma_put();
}

/// Law: a channel, a port or an address that a DUT's entry does not set is the global
/// one, or else the host's.
#[verifier::rlimit(50)]
pub proof fn law_open_values_fall_back(d: DutToml, global: Values, hosts: Seq<HostView>)
    ensures
        ({
            let x = dut_of(d, global, hosts);
            let reset = match d.relay {
                Some(r) => channel(r.reset_ch, r.reset_channel),
                None => None,
            };
            let power = match d.relay {
                Some(r) => channel(r.power_ch, r.power_channel),
                None => None,
            };
            &&& reset is None || reset == Some(0nat) ==> x.reset_ch == number(
                global,
                "RESET_CHANNEL"@,
                255,
                0,
            )
            &&& power is None || power == Some(0nat) ==> x.power_ch == number(
                global,
                "POWER_CHANNEL"@,
                255,
                0,
            )
            &&& (d.relay matches Some(r) ==> r.port is None || r.port == Some(0u16)) ==> x.relay_port
                == number(global, "RELAY_PORT"@, 65535, 0)
            &&& (d.serial matches Some(s) ==> s.port is None) ==> x.serial_port == lookup(
                global,
                "SERIAL_PORT"@,
            )
            &&& (d.serial matches Some(s) ==> s.ip is None) ==> x.serial_ip == x.dev_host_ip
            &&& (d.relay matches Some(r) ==> r.ip is None) && lookup(global, "RELAY_IP"@).len() == 0
                ==> x.relay_ip == x.dev_host_ip
            &&& (d.monitor matches Some(m) ==> m.reference_log is None) && (d.reference_log matches
                Some(l) && l@.len() == 0) ==> x.reference_log == lookup(global, "REFERENCE_LOG"@)
            &&& (d.monitor matches Some(m) ==> m.crash_patterns is None) ==> x.crash_patterns.len()
                == 0
            &&& (d.monitor matches Some(m) ==> m.learner_stage_threshold is None)
                ==> x.learner_stage_threshold.len() == 0
            &&& (d.monitor matches Some(m) ==> m.learner_crash_threshold is None)
                ==> x.learner_crash_threshold.len() == 0
        }),
{
    lemma_number_bounded(global, "RELAY_PORT"@, 65535, 0);
    lemma_number_bounded(global, "RESET_CHANNEL"@, 255, 0);
    lemma_number_bounded(global, "POWER_CHANNEL"@, 255, 0);
}

/// Law: a value that a DUT leaves empty keeps its global value.
#[verifier::rlimit(50)]
pub proof fn law_unset_values_stay(d: DutView, global: Values)
    ensures
        ({
            let m = d.onto(global);
            &&& d.dev_host_ip.len() == 0 ==> value_at(m, "DEV_HOST_IP"@) == value_at(global, "DEV_HOST_IP"@)
            &&& d.dev_host_user.len() == 0 ==> value_at(m, "DEV_HOST_USER"@) == value_at(global, "DEV_HOST_USER"@)
            &&& d.dev_host_pass.len() == 0 ==> value_at(m, "DEV_HOST_PASS"@) == value_at(global, "DEV_HOST_PASS"@)
            &&& d.serial_port.len() == 0 ==> value_at(m, "SERIAL_PORT"@) == value_at(global, "SERIAL_PORT"@)
            &&& d.serial_ip.len() == 0 ==> value_at(m, "SERIAL_IP"@) == value_at(global, "SERIAL_IP"@)
            &&& d.relay_ip.len() == 0 ==> value_at(m, "RELAY_IP"@) == value_at(global, "RELAY_IP"@)
            &&& d.relay_type.len() == 0 ==> value_at(m, "RELAY_TYPE"@) == value_at(global, "RELAY_TYPE"@)
            &&& d.reference_log.len() == 0 ==> value_at(m, "REFERENCE_LOG"@) == value_at(global, "REFERENCE_LOG"@)
            &&& d.dut_dir.len() == 0 ==> value_at(m, "DUT_DIR"@) == value_at(global, "DUT_DIR"@)
            &&& d.login_user.len() == 0 ==> value_at(m, "LOGIN_USER"@) == value_at(global, "LOGIN_USER"@)
            &&& d.login_pass.len() == 0 ==> value_at(m, "LOGIN_PASS"@) == value_at(global, "LOGIN_PASS"@)
            &&& d.learner_stage_threshold.len() == 0 ==> value_at(m, "LEARNER_STAGE_THRESHOLD"@) == value_at(global, "LEARNER_STAGE_THRESHOLD"@)
            &&& d.learner_crash_threshold.len() == 0 ==> value_at(m, "LEARNER_CRASH_THRESHOLD"@) == value_at(global, "LEARNER_CRASH_THRESHOLD"@)
            &&& d.crash_patterns.len() == 0 ==> value_at(m, "CRASH_PATTERNS"@) == value_at(global, "CRASH_PATTERNS"@)
            &&& d.relay_port == 0 ==> value_at(m, "RELAY_PORT"@) == value_at(global, "RELAY_PORT"@)
            &&& d.reset_ch == 0 ==> value_at(m, "RESET_CHANNEL"@) == value_at(global, "RESET_CHANNEL"@)
            &&& d.maskrom_ch == 0 ==> value_at(m, "MASKROM_CHANNEL"@) == value_at(global, "MASKROM_CHANNEL"@)
            &&& d.recovery_ch == 0 ==> value_at(m, "RECOVERY_CHANNEL"@) == value_at(global, "RECOVERY_CHANNEL"@)
            &&& d.power_ch == 0 ==> value_at(m, "POWER_CHANNEL"@) == value_at(global, "POWER_CHANNEL"@)
            &&& d.power_off_time_ms == 0 ==> value_at(m, "POWER_OFF_TIME_MS"@) == value_at(global, "POWER_OFF_TIME_MS"@)
        }),
{
    lemma_key_tags();
    lemma_puts();
}

/// Law: a configuration without a host is refused, and so is one without a serial port;
/// the port that is refused is named.
pub proof fn law_value_errors(m: Values)
    ensures
        value_errors(m).len() == 0 <==> lookup(m, "DEV_HOST_IP"@).len() > 0 && serial_target_of(m)
            != "0"@ && serial_target_of(m) != "2000"@,
        lookup(m, "DEV_HOST_IP"@).len() == 0 ==> value_errors(m) == seq![
            "dev_host.ip: required field is empty. Set [[dev_hosts]].ip in .target.toml"@,
        ],
        lookup(m, "DEV_HOST_IP"@).len() > 0 && value_errors(m).len() > 0 ==> value_errors(m)
            == seq![
            "dut.serial.port: must be set to a non-zero port (current: "@ + serial_target_of(m)
                + "). Set [dut.serial].port in .target.toml"@,
        ],
{
}

/// Law: each DUT without a serial port is reported by its alias, in order; a file
/// without DUTs and one that cannot be read are reported as such.
pub proof fn law_dut_errors(duts: Seq<DutView>, d: DutView, e: String)
    ensures
        dut_errors(Seq::empty()).len() == 0,
        d.serial_port.len() == 0 || d.serial_port == "0"@ ==> dut_errors(duts.push(d))
            == dut_errors(duts).push("DUT '"@ + d.alias + "': serial.port is not set"@),
        d.serial_port.len() > 0 && d.serial_port != "0"@ ==> dut_errors(duts.push(d)) == dut_errors(
            duts,
        ),
        file_errors(Err(e)) == seq!["Failed to parse [[dut]] from .target.toml: "@ + e@],
{
    assert(duts.push(d).drop_last() =~= duts);
}

/// Law: a list of values holds its pieces that are not blank, without the white space
/// around them.
pub proof fn law_nonblank(ps: Seq<Seq<char>>, before: Seq<char>, s: Seq<char>, after: Seq<char>)
    requires
        crate::text::all_space(before),
        crate::text::all_space(after),
        crate::text::is_trimmed(s),
    ensures
        nonblank(Seq::empty()).len() == 0,
        s.len() > 0 ==> nonblank(ps.push(before + s + after)) == nonblank(ps).push(s),
        s.len() == 0 ==> nonblank(ps.push(before + s + after)) == nonblank(ps),
{
    crate::text::law_trim(before, s, after);
    assert(ps.push(before + s + after).drop_last() =~= ps);
}

/// Law: a file's hosts are its list, or else its single host, each with its own address
/// and credentials.
pub proof fn law_hosts_are_read(t: TargetToml, i: int)
    ensures
        t.dev_hosts matches Some(hs) ==> hs@.len() > 0 ==> t.hosts() == hs@,
        (t.dev_hosts matches Some(hs) ==> hs@.len() == 0) ==> (match t.dev_host {
            Some(h) => t.hosts() == seq![h],
            None => t.hosts().len() == 0,
        }),
        file_hosts(t).len() == t.hosts().len(),
        0 <= i < t.hosts().len() ==> {
            let h = t.hosts()[i];
            let x = file_hosts(t)[i];
            &&& h.alias matches Some(a) ==> x.alias == a@
            &&& h.ip matches Some(a) ==> x.ip == a@
            &&& h.user matches Some(a) ==> x.user == a@
            &&& h.pass matches Some(a) ==> x.pass == a@
            &&& h.alias is None ==> x.alias.len() == 0
            &&& h.ip is None ==> x.ip.len() == 0
            &&& h.user is None ==> x.user.len() == 0
            &&& h.pass is None ==> x.pass.len() == 0
        },
{
}

/// Law: a value is taken as the text that it is, a number in decimal.
pub proof fn law_values_as_text(s: String, n: u32)
    ensures
        value_option(Some(TomlValue::Text(s))) == Some(s@),
        value_option(Some(TomlValue::Other(s))) == Some(s@),
        value_option(Some(TomlValue::Integer(n as i64))) == Some(decimal(n as nat)),
        n > 0 ==> value_option(Some(TomlValue::Integer((0 - n) as i64))) == Some(
            "-"@ + decimal(n as nat),
        ),
        value_option(None) is None,
{
}

/// Law: the DUTs at a place are listed by their aliases, in order.
pub proof fn law_duts_at_a_place(duts: Seq<DutView>, d: DutView, key: Seq<char>)
    ensures
        aliases_at(Seq::empty(), key).len() == 0,
        d.dev_host_ip + ":"@ + d.serial_port == key ==> aliases_at(duts.push(d), key) == aliases_at(
            duts,
            key,
        ).push(d.alias),
        d.dev_host_ip + ":"@ + d.serial_port != key ==> aliases_at(duts.push(d), key) == aliases_at(
            duts,
            key,
        ),
{
    assert(duts.push(d).drop_last() =~= duts);
}

/// Law: a byte in hexadecimal, in small letters or with a plus sign before it, is the
/// byte; a number that does not fit gives Ctrl-C.
#[verifier::rlimit(50)]
pub proof fn law_hexadecimal_bytes(n: nat)
    requires
        16 <= n < 256,
    ensures
        interrupt_byte("0x"@ + crate::text::hexadecimal(n)) == n,
        interrupt_byte("0x+"@ + crate::text::hexadecimal(n)) == n,
        interrupt_byte("0x1"@ + crate::text::hexadecimal(n)) == 3,
{
    reveal_strlit("ctrl_c");
    reveal_strlit("0x03");
    reveal_strlit("0x");
    reveal_strlit("0x+");
    reveal_strlit("0x1");
    let h = n / 16;
    let l = n % 16;
    let a = crate::text::digit_char(h);
    let b = crate::text::digit_char(l);
    reveal_with_fuel(crate::text::radix, 3);
    assert(crate::text::hexadecimal(n) =~= seq![a, b]);
    assert(is_hex(a) && is_hex(b) && hex_digit(a) == h && hex_digit(b) == l);
    let d = seq![a, b];
    assert(d.drop_last() =~= seq![a]);
    assert(seq![a].drop_last() =~= Seq::<char>::empty());
    reveal_with_fuel(hex_value, 4);
    assert(hex_value(d) == n);
    assert(a != '0' && a != '+');
    let x = "0x"@ + d;
    assert(x =~= seq!['0', 'x', a, b]);
    assert(is_at(x, "0x"@, 0)) by {
        assert(x.subrange(0, 2) =~= "0x"@);
    }
    assert(x.subrange(2, 4) =~= d);
    assert("0x03"@[2] == '0');
    assert(x != "0x03"@);
    assert("ctrl_c"@[0] == 'c');
    assert(d[0] == a && d[1] == b);
    assert(hex_digits_byte(d) == Some(n));
    let y = "0x+"@ + d;
    assert(y =~= seq!['0', 'x', '+', a, b]);
    assert(is_at(y, "0x"@, 0)) by {
        assert(y.subrange(0, 2) =~= "0x"@);
    }
    let v = y.subrange(2, 5);
    assert(v =~= seq!['+', a, b]);
    assert(v.subrange(1, 3) =~= d);
    assert(y.len() == 5 && "0x03"@.len() == 4);
    let z = "0x1"@ + d;
    assert(z =~= seq!['0', 'x', '1', a, b]);
    assert(is_at(z, "0x"@, 0)) by {
        assert(z.subrange(0, 2) =~= "0x"@);
    }
    let w = z.subrange(2, 5);
    assert(w =~= seq!['1', a, b]);
    assert(w.drop_last() =~= seq!['1', a]);
    assert(seq!['1', a].drop_last() =~= seq!['1']);
    assert(seq!['1'].drop_last() =~= Seq::<char>::empty());
    assert(hex_value(w) == 256 + n);
}

/// Law: without a file the defaults hold, and a blank alias asks for no DUT.
pub proof fn law_nothing_asked_for(t: TargetToml, alias: Option<Seq<char>>, blank: Seq<char>)
    requires
        crate::text::all_space(blank),
    ensures
        loaded_values(None, alias) == default_values(),
        loaded_values(Some(t), Some(blank)) == loaded_values(Some(t), None),
        loaded_values(Some(t), None) == default_values().union_prefer_right(t.values()),
{
    let e = Seq::<char>::empty();
    crate::text::law_trim(blank, e, e);
    assert(blank + e + e =~= blank);
}

/// Law: a DUT's configuration holds, under each button, the channel that its entry sets
/// for that button, and reads it back as a number under the button's key.
#[verifier::rlimit(50)]
pub proof fn law_channels_of_a_dut(
    d: &DutToml,
    global: &ConfigMap,
    hosts: &[DevHostConfig],
    c: DutConfig,
    m: ConfigMap,
    r: RelayToml,
    n: nat,
)
    requires
        call_ensures(dut_toml_to_config, (d, global, hosts), c),
        call_ensures(DutConfig::to_config_map, (&c, global), m),
        d.relay == Some(r),
        0 < n <= 255,
    ensures
        channel(r.reset_ch, r.reset_channel) == Some(n) ==> c.reset_ch == n && number(
            m@,
            "RESET_CHANNEL"@,
            255,
            0,
        ) == n,
        channel(r.maskrom_ch, r.maskrom_channel) == Some(n) ==> c.maskrom_ch == n && number(
            m@,
            "MASKROM_CHANNEL"@,
            255,
            0,
        ) == n,
        channel(r.recovery_ch, r.recovery_channel) == Some(n) ==> c.recovery_ch == n && number(
            m@,
            "RECOVERY_CHANNEL"@,
            255,
            0,
        ) == n,
        channel(r.power_ch, r.power_channel) == Some(n) ==> c.power_ch == n && number(
            m@,
            "POWER_CHANNEL"@,
            255,
            0,
        ) == n,
        channel(r.maskrom_ch, r.maskrom_channel) == Some(0nat) ==> c.maskrom_ch == 0 && value_at(
            m@,
            "MASKROM_CHANNEL"@,
        ) == value_at(global@, "MASKROM_CHANNEL"@),
        channel(r.recovery_ch, r.recovery_channel) == Some(0nat) ==> c.recovery_ch == 0 && value_at(
            m@,
            "RECOVERY_CHANNEL"@,
        ) == value_at(global@, "RECOVERY_CHANNEL"@),
{
    law_dut_entry_is_read(*d, global@, hosts_of(hosts@));
    law_channels_reach_their_buttons(*d, r, global@, hosts_of(hosts@));
    law_unset_values_stay(c@, global@);
}

/// Law: a DUT is known by its alias, lives in its own directory, and hangs on the host
/// that it names.
#[verifier::rlimit(50)]
pub proof fn law_entries_of_a_dut(
    d: &DutToml,
    global: &ConfigMap,
    hosts: &[DevHostConfig],
    c: DutConfig,
    k: int,
)
    requires
        call_ensures(dut_toml_to_config, (d, global, hosts), c),
    ensures
        d.alias matches Some(a) ==> c.alias@ == a@,
        d.alias is None ==> c.alias@ == "unnamed"@,
        d.dut_dir matches Some(dir) ==> c.dut_dir@ == dir@,
        d.dut_dir is None ==> c.dut_dir@ == ".dut-serial/"@ + c.alias@,
        (d.dev_host matches Some(a) && 0 <= k < hosts@.len() && hosts@[k].alias@ == a@ && forall|
            j: int,
        |
            0 <= j < k ==> (#[trigger] hosts@[j]).alias@ != a@) ==> c.dev_host_ip@ == hosts@[k].ip@
            && c.dev_host_user@ == hosts@[k].user@ && c.dev_host_pass@ == hosts@[k].pass@,
        (d.target matches Some(t) && t.login_user is Some) ==> c.login_user@
            == d.target->0.login_user->0@,
        (d.target matches Some(t) && t.login_pass is Some) ==> c.login_pass@
            == d.target->0.login_pass->0@,
        (d.serial matches Some(s) && value_option(s.port) matches Some(p) && p.len() > 0)
            ==> c.serial_port@ == value_option(d.serial->0.port)->0,
{
    let hs = hosts_of(hosts@);
    law_dut_entry_is_read(*d, global@, hs);
    law_the_named_host_is_taken(*d, global@, hs, k);
    if d.dev_host is Some && 0 <= k < hosts@.len() && (forall|j: int|
        0 <= j < k ==> (#[trigger] hosts@[j]).alias@ != d.dev_host->0@) {
        assert forall|j: int| 0 <= j < k implies (#[trigger] hs[j]).alias != d.dev_host->0@ by {
            assert(hs[j] == hosts@[j]@);
        }
        assert(hs[k] == hosts@[k]@);
    }
}

/// Law: a channel, and the relay's port, is the number under its key, and 0 where there
/// is none.
pub proof fn law_reading_channels(
    c: Config,
    n: nat,
    r0: u8,
    r1: u8,
    r2: u8,
    r3: u8,
    r4: u16,
)
    requires
        call_ensures(Config::reset_channel, (&c,), r0),
        call_ensures(Config::maskrom_channel, (&c,), r1),
        call_ensures(Config::recovery_channel, (&c,), r2),
        call_ensures(Config::power_channel, (&c,), r3),
        call_ensures(Config::relay_port, (&c,), r4),
    ensures
        value_at(c.values@, "RESET_CHANNEL"@) == Some(decimal(n)) && n <= 255 ==> r0 == n,
        value_at(c.values@, "RESET_CHANNEL"@) is None ==> r0 == 0,
        value_at(c.values@, "MASKROM_CHANNEL"@) == Some(decimal(n)) && n <= 255 ==> r1 == n,
        value_at(c.values@, "MASKROM_CHANNEL"@) is None ==> r1 == 0,
        value_at(c.values@, "RECOVERY_CHANNEL"@) == Some(decimal(n)) && n <= 255 ==> r2 == n,
        value_at(c.values@, "RECOVERY_CHANNEL"@) is None ==> r2 == 0,
        value_at(c.values@, "POWER_CHANNEL"@) == Some(decimal(n)) && n <= 255 ==> r3 == n,
        value_at(c.values@, "POWER_CHANNEL"@) is None ==> r3 == 0,
        value_at(c.values@, "RELAY_PORT"@) == Some(decimal(n)) && n <= 65535 ==> r4 == n,
        value_at(c.values@, "RELAY_PORT"@) is None ==> r4 == 0,
{
    law_numbers_are_read(c.values@, "RESET_CHANNEL"@, n, 255, 0);
    law_numbers_are_read(c.values@, "MASKROM_CHANNEL"@, n, 255, 0);
    law_numbers_are_read(c.values@, "RECOVERY_CHANNEL"@, n, 255, 0);
    law_numbers_are_read(c.values@, "POWER_CHANNEL"@, n, 255, 0);
    law_numbers_are_read(c.values@, "RELAY_PORT"@, n, 65535, 0);
}

/// Law: a limit is the number under its key; without one a target hangs after a minute,
/// three times in a row, and ten logs of 100 MiB are kept.
pub proof fn law_reading_limits(
    c: Config,
    n: nat,
    r0: u64,
    r1: u32,
    r2: usize,
    r3: u64,
    r4: u64,
)
    requires
        call_ensures(Config::hang_timeout, (&c,), r0),
        call_ensures(Config::hang_hysteresis, (&c,), r1),
        call_ensures(Config::max_archived_logs, (&c,), r2),
        call_ensures(Config::max_log_file_size_mb, (&c,), r3),
        call_ensures(Config::reset_time_ms, (&c,), r4),
        n <= u32::MAX,
    ensures
        value_at(c.values@, "HANG_TIMEOUT"@) == Some(decimal(n)) ==> r0 == n,
        value_at(c.values@, "HANG_TIMEOUT"@) is None ==> r0 == 60,
        value_at(c.values@, "HANG_HYSTERESIS"@) == Some(decimal(n)) ==> r1 == n,
        value_at(c.values@, "HANG_HYSTERESIS"@) is None ==> r1 == 3,
        value_at(c.values@, "MAX_ARCHIVED_LOGS"@) == Some(decimal(n)) ==> r2 == n,
        value_at(c.values@, "MAX_ARCHIVED_LOGS"@) is None ==> r2 == 10,
        value_at(c.values@, "MAX_LOG_FILE_SIZE"@) == Some(decimal(n)) ==> r3 == n,
        value_at(c.values@, "MAX_LOG_FILE_SIZE"@) is None ==> r3 == 100,
        value_at(c.values@, "RESET_TIME_MS"@) == Some(decimal(n)) ==> r4 == n,
        value_at(c.values@, "RESET_TIME_MS"@) is None ==> r4 == 0,
{
    law_numbers_are_read(c.values@, "HANG_TIMEOUT"@, n, u64::MAX as nat, 60);
    law_numbers_are_read(c.values@, "HANG_HYSTERESIS"@, n, u32::MAX as nat, 3);
    law_numbers_are_read(c.values@, "MAX_ARCHIVED_LOGS"@, n, usize::MAX as nat, 10);
    law_numbers_are_read(c.values@, "MAX_LOG_FILE_SIZE"@, n, u64::MAX as nat, 100);
    law_numbers_are_read(c.values@, "RESET_TIME_MS"@, n, u64::MAX as nat, 0);
}

/// Law: an address that is set is that address, otherwise the host's; a directory and a
/// user have their defaults.
pub proof fn law_reading_texts(
    c: Config,
    serial: String,
    relay: String,
    host: String,
    dir: String,
    lock: String,
    user: String,
    pass: String,
)
    requires
        call_ensures(Config::serial_ip, (&c,), serial),
        call_ensures(Config::relay_ip, (&c,), relay),
        call_ensures(Config::dev_host_ip, (&c,), host),
        call_ensures(Config::dut_dir, (&c,), dir),
        call_ensures(Config::lock_dir, (&c,), lock),
        call_ensures(Config::login_user, (&c,), user),
        call_ensures(Config::login_pass, (&c,), pass),
    ensures
        ({
            let m = c.values@;
            &&& value_at(m, "DEV_HOST_IP"@) matches Some(t) ==> host@ == t
            &&& value_at(m, "SERIAL_IP"@) matches Some(t) ==> t.len() > 0 ==> serial@ == t
            &&& value_at(m, "SERIAL_IP"@) is None ==> serial@ == host@
            &&& value_at(m, "RELAY_IP"@) matches Some(t) ==> t.len() > 0 ==> relay@ == t
            &&& value_at(m, "RELAY_IP"@) is None ==> relay@ == host@
            &&& value_at(m, "DUT_DIR"@) matches Some(t) ==> t.len() > 0 ==> dir@ == t
            &&& value_at(m, "DUT_DIR"@) is None ==> dir@ == ".dut-serial"@
            &&& value_at(m, "LOCK_DIR"@) matches Some(t) ==> t.len() > 0 ==> lock@ == t
            &&& value_at(m, "LOCK_DIR"@) is None ==> lock@ == "/tmp/debug-console/locks"@
            &&& value_at(m, "LOGIN_USER"@) matches Some(t) ==> t.len() > 0 ==> user@ == t
            &&& value_at(m, "LOGIN_USER"@) is None ==> user@ == "root"@
            &&& value_at(m, "LOGIN_PASS"@) matches Some(t) ==> pass@ == t
        }),
{
}

} // verus!
