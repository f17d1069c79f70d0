use debug_console::console::{control_byte, ReadOutcome, SerialConsoleDriver};
use debug_console::power_control::{relay_packet, HEADER, OP_OFF, OP_ON};
use debug_console::relay_manager::{after_attempt, RelayManager, RelayStep, SendNext};

fn relay(port: u16, reset: u8, maskrom: u8) -> RelayManager {
    RelayManager::new("127.0.0.1".to_string(), port, reset, maskrom)
}

#[test]
fn test_configured() {
    assert!(relay(2001, 2, 1).configured());
}

#[test]
fn test_not_configured_zero_port() {
    assert!(!relay(0, 2, 1).configured());
}

#[test]
fn test_not_configured_zero_channel() {
    assert!(!relay(2001, 0, 1).configured());
}

#[test]
fn test_not_configured_channel_too_high() {
    assert!(!relay(2001, 5, 1).configured());
}

#[test]
fn test_maskrom_not_configured_zero_channel() {
    assert!(!relay(2001, 2, 0).maskrom_configured());
}

#[test]
fn test_maskrom_not_configured_channel_too_high() {
    assert!(!relay(2001, 2, 5).maskrom_configured());
}

#[test]
fn test_maskrom_configured() {
    assert!(relay(2001, 2, 1).maskrom_configured());
}

#[test]
fn test_packet_checksum() {
    assert_eq!(HEADER, 0xA0);
    assert_eq!(relay_packet(2, OP_ON)[3], 0xA3);
}

#[test]
fn test_packet_structure() {
    let packet = relay_packet(1, OP_OFF);
    assert_eq!(packet[0], 0xA0);
    assert_eq!(packet[1], 1);
    assert_eq!(packet[2], 0x00);
    assert_eq!(packet[3], 0xA1);
}

#[test]
fn test_relay_manager_fields() {
    let relay = RelayManager::new("192.168.1.1".to_string(), 2001, 2, 1);
    assert_eq!(relay.host, "192.168.1.1");
    assert_eq!(relay.port, 2001);
    assert_eq!(relay.reset_ch, 2);
    assert_eq!(relay.maskrom_ch, 1);
    assert_eq!(relay.maskrom_ch(), 1);
}

#[test]
fn test_channel_boundaries() {
    assert!(relay(2001, 1, 1).configured());
    assert!(relay(2001, 2, 1).configured());
    assert!(relay(2001, 3, 1).configured());
    assert!(relay(2001, 4, 1).configured());
    assert!(!relay(2001, 0, 1).configured());
    assert!(!relay(2001, 5, 1).configured());
}

#[test]
fn a_reset_leaves_the_channel_off() {
    let steps = relay(2001, 2, 1).reset().unwrap();
    assert_eq!(steps, vec![RelayStep::On(2), RelayStep::Wait(500), RelayStep::Off(2)]);
    assert!(relay(0, 0, 0).reset().is_none());
    assert!(relay(2001, 2, 1).reset_rollback().contains(&RelayStep::Off(2)));
}

#[test]
fn maskrom_is_held_while_resetting() {
    let steps = relay(2001, 2, 1).enter_maskrom().unwrap();
    assert_eq!(steps.first(), Some(&RelayStep::On(1)));
    assert_eq!(steps.last(), Some(&RelayStep::Off(1)));
    assert!(relay(2001, 2, 0).enter_maskrom().is_none());
    let back = relay(2001, 2, 1).maskrom_rollback();
    assert!(back.contains(&RelayStep::Off(1)) && back.contains(&RelayStep::Off(2)));
}

#[test]
fn sending_is_tried_again() {
    assert_eq!(after_attempt(0, true), SendNext::Proceed);
    assert_eq!(after_attempt(0, false), SendNext::Retry);
    assert_eq!(after_attempt(100, false), SendNext::Fail);
}

fn console() -> SerialConsoleDriver {
    SerialConsoleDriver::new("127.0.0.1".to_string(), "12345".to_string())
}

#[test]
fn test_bounded_channel_drops_on_full() {
    let mut console = console();
    for i in 0..64 {
        assert!(console.enqueue(vec![i as u8]));
    }
    assert!(!console.enqueue(vec![65]));
    console.connect(true);
    let writes = console.drain_writes();
    assert_eq!(writes.len(), 64);
    assert_eq!(writes[0], vec![0]);
}

#[test]
fn test_sendline_uses_try_send() {
    let mut console = console();
    console.sendline("test");
    console.sendcontrol('c');
    console.connect(true);
    assert_eq!(console.drain_writes(), vec![b"test\n".to_vec(), vec![0x03]]);
}

#[test]
fn test_sendcontrol_byte_calculation() {
    let test_cases =
        [('a', 0x01), ('b', 0x02), ('c', 0x03), ('x', 0x18), ('y', 0x19), ('z', 0x1A)];
    for (ch, expected) in test_cases {
        assert_eq!(control_byte(ch), Some(expected));
    }
    assert_eq!(control_byte('C'), Some(0x03));
    assert_eq!(control_byte('1'), None);
}

#[test]
fn a_console_is_open_while_connected() {
    let mut c = console();
    assert!(!c.is_open());
    c.connect(false);
    assert!(!c.is_open());
    c.connect(true);
    assert!(c.is_open());
    c.read_available(ReadOutcome::Silence);
    assert!(c.is_open());
    c.read_available(ReadOutcome::Closed);
    assert!(!c.is_open());
    c.connect(true);
    c.close();
    assert!(!c.is_open());
    assert_eq!((c.host(), c.port()), ("127.0.0.1", 12345));
    assert_eq!(SerialConsoleDriver::new("h".to_string(), "/dev/x".to_string()).port(), 2000);
}

#[test]
fn writes_are_discarded_while_the_line_is_down() {
    let mut c = console();
    c.enqueue(b"should_be_discarded".to_vec());
    assert_eq!(c.drain_writes().len(), 0);
    c.connect(true);
    assert_eq!(c.drain_writes().len(), 0);
}

#[test]
fn a_failed_line_keeps_what_was_not_written() {
    let mut c = console();
    c.connect(true);
    c.enqueue(b"one".to_vec());
    c.enqueue(b"two".to_vec());
    c.enqueue(b"three".to_vec());
    let mut writes = c.drain_writes();
    writes.remove(0);
    c.write_failed(writes);
    assert!(!c.is_open());
    // The connection is still held, so what waits is handed out.
    assert_eq!(c.drain_writes(), vec![b"two".to_vec(), b"three".to_vec()]);
    c.enqueue(b"four".to_vec());
    c.close();
    assert!(c.drain_writes().is_empty());
}
