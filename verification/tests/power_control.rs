use debug_console::power_control::{
    read_channel_state, relay_packet, Button, ButtonChannels, Ch340RelayControl, ControlStep,
    ExternalControl, PowerControlBackend, PowerError, SoftwareRebootControl, VerifyPlan, OP_OFF,
    OP_ON, OP_STATUS,
};

fn relay(port: u16, reset: u8, maskrom: u8) -> Ch340RelayControl {
    Ch340RelayControl::new(
        "192.168.1.1".to_string(),
        port,
        ButtonChannels { reset, maskrom, recovery: 0 },
    )
}

#[test]
fn test_button_channels() {
    let ch = ButtonChannels { reset: 1, maskrom: 2, recovery: 0 };
    assert_eq!(ch.get(Button::Reset), 1);
    assert_eq!(ch.get(Button::Maskrom), 2);
    assert_eq!(ch.get(Button::Recovery), 0);
    assert!(ch.has_any());
}

#[test]
fn test_button_channels_empty() {
    let ch = ButtonChannels::default();
    assert!(!ch.has_any());
    assert_eq!(ch.get(Button::Reset), 0);
}

#[test]
fn test_ch340_configured() {
    assert!(relay(2001, 1, 2).is_configured());
}

#[test]
fn test_ch340_not_configured_zero_port() {
    assert!(!relay(0, 1, 0).is_configured());
}

#[test]
fn test_ch340_not_configured_no_channels() {
    let relay =
        Ch340RelayControl::new("192.168.1.1".to_string(), 2001, ButtonChannels::default());
    assert!(!relay.is_configured());
}

#[test]
fn test_ch340_has_button() {
    let relay = relay(2001, 1, 2);
    assert!(relay.has_button(Button::Reset));
    assert!(relay.has_button(Button::Maskrom));
    assert!(!relay.has_button(Button::Recovery));
}

#[test]
fn test_software_reboot() {
    let sw = SoftwareRebootControl::new();
    assert_eq!(sw.name(), "software-reboot");
    assert!(sw.has_button(Button::Reset));
    assert!(!sw.has_button(Button::Maskrom));
}

#[test]
fn test_button_as_str() {
    assert_eq!(Button::Reset.as_str(), "reset");
    assert_eq!(Button::Maskrom.as_str(), "maskrom");
    assert_eq!(Button::Recovery.as_str(), "recovery");
}

#[test]
fn ch340_verify_not_configured_fails() {
    let relay = Ch340RelayControl::new("192.168.1.1".to_string(), 0, ButtonChannels::default());
    assert!(matches!(relay.verify(), Err(PowerError::NotConfigured)));
}

#[test]
fn software_reboot_cannot_verify() {
    let sw = SoftwareRebootControl::new();
    assert!(matches!(sw.verify(), Ok(false)));
    assert!(sw.release(Button::Reset).is_ok());
    assert!(sw.press(Button::Reset).is_ok());
    assert!(matches!(sw.press(Button::Maskrom), Err(PowerError::NotConfigured)));
}

#[test]
fn ch340_verify_switches_on_and_off_and_reads_back() {
    let relay = relay(2001, 1, 0);
    let packets = match relay.verify() {
        Ok(p) => p,
        Err(_) => panic!("configured"),
    };
    assert_eq!(packets[0], vec![0xA0, 1, OP_ON, 0xA2]);
    assert!(packets.contains(&vec![0xA0, 1, OP_STATUS, 0xA6]));
    assert!(packets.contains(&vec![0xA0, 1, OP_OFF, 0xA1]));
    assert!(matches!(
        relay.judge(&[0xA0, 1, 1, 0xA2], &[0xA0, 1, 0, 0xA1]),
        Ok(true)
    ));
    assert!(matches!(
        relay.judge(&[0xA0, 1, 0, 0xA1], &[0xA0, 1, 0, 0xA1]),
        Err(PowerError::VerifyFailed { .. })
    ));
}

#[test]
fn packets_carry_their_checksum() {
    assert_eq!(relay_packet(1, OP_ON), vec![0xA0, 0x01, 0x01, 0xA2]);
    assert_eq!(relay_packet(0xff, OP_STATUS), vec![0xA0, 0xff, 0x05, 0xA4]);
}

#[test]
fn press_differs_from_release() {
    let r = relay(2001, 1, 2);
    let on = match r.press(Button::Reset) {
        Ok(p) => p,
        Err(_) => panic!("configured"),
    };
    let off = match r.release(Button::Reset) {
        Ok(p) => p,
        Err(_) => panic!("configured"),
    };
    assert_eq!(on, vec![0xA0, 1, 1, 0xA2]);
    assert_eq!(off, vec![0xA0, 1, 0, 0xA1]);
    let inverted = relay(2001, 1, 2).with_inverted(true);
    assert!(matches!(inverted.press(Button::Reset), Ok(p) if p == off));
    assert!(matches!(inverted.release(Button::Reset), Ok(p) if p == on));
    assert!(matches!(r.press(Button::Recovery), Err(PowerError::NotConfigured)));
}

#[test]
fn channel_state_is_the_third_byte() {
    assert!(matches!(read_channel_state(&[0xA0, 1, 1, 0xA2]), Ok(1)));
    assert!(read_channel_state(&[]).is_err());
}

#[test]
fn errors_have_messages() {
    let e = PowerError::VerifyFailed { sent: 1, read_back: 0 };
    assert!(e.message().contains("0x01"));
    assert!(e.message().contains("0x00"));
    assert!(PowerError::Io("gone".to_string()).message().contains("gone"));
    assert!(!PowerError::NotConfigured.message().is_empty());
    assert!(!PowerError::NotConnected.message().is_empty());
    assert!(!PowerError::Timeout.message().is_empty());
}

#[test]
fn external_programs_get_their_arguments_in_order() {
    let c = ExternalControl::new(
        "ctl".to_string(),
        "board".to_string(),
        ButtonChannels { reset: 1, maskrom: 0, recovery: 0 },
    );
    assert!(c.is_configured());
    let args = match c.press(Button::Reset) {
        Ok(a) => a,
        Err(_) => panic!("configured"),
    };
    let want: Vec<&str> = vec!["--dut", "board", "button"];
    assert_eq!(&args[..3], &want[..]);
    assert_eq!(&args[4..], &["--pressed", "true"]);
    assert!(c.exit_error("exit status: 1", "bad").message().contains("bad"));
    assert!(c.start_error("missing").message().contains("missing"));
}

#[test]
fn backends_plan_pulses() {
    let b = PowerControlBackend::Ch340(relay(2001, 1, 0));
    match b.pulse(Button::Reset, 300) {
        Ok((ControlStep::Packet(on), ms, ControlStep::Packet(off))) => {
            assert_eq!(on, vec![0xA0, 1, 1, 0xA2]);
            assert_eq!(ms, 300);
            assert_eq!(off, vec![0xA0, 1, 0, 0xA1]);
        }
        _ => panic!("a pulse"),
    }
    let sw = PowerControlBackend::Software(SoftwareRebootControl::new());
    assert!(matches!(sw.verify(), Ok(VerifyPlan::Unsupported)));
    assert_eq!(sw.name(), "software-reboot");
}
