use rust_telemetry::telemetry::{
    after_decode, describe_port_type, DecodeAction, next_action, parse_failure_message, port_listing, reading_line,
    PortEntry, PortKind, ReadOutcome, SerialStreamConfig, StepAction, DEFAULT_PORT,
};

fn config() -> SerialStreamConfig {
    SerialStreamConfig { port: DEFAULT_PORT.to_string(), baud: 115_200, timeout_ms: 1000 }
}

fn read(line: &str) -> ReadOutcome {
    ReadOutcome::Read { count: line.len(), line: line.to_string() }
}

fn parsed(action: StepAction) -> Option<String> {
    match action {
        StepAction::Parse(s) => Some(s),
        _ => None,
    }
}

#[test]
fn default_port_is_the_uno_device() {
    assert_eq!(DEFAULT_PORT, "/dev/cu.usbserial-10");
}

#[test]
fn opening_message_names_port_baud_and_timeout() {
    assert_eq!(
        config().opening_message(),
        "Opening /dev/cu.usbserial-10 @ 115200 baud (timeout 1000 ms)\u{2026}"
    );
    let other = SerialStreamConfig { port: "COM4".to_string(), baud: 9600, timeout_ms: 0 };
    assert_eq!(other.opening_message(), "Opening COM4 @ 9600 baud (timeout 0 ms)\u{2026}");
}

#[test]
fn config_clone_keeps_fields() {
    let c = config();
    let d = c.clone();
    assert_eq!(d.port, c.port);
    assert_eq!(d.baud, 115_200);
    assert_eq!(d.timeout_ms, 1000);
}

#[test]
fn a_json_line_is_handed_on_trimmed() {
    let line = "{\"raw\":512,\"voltage\":2.5}\r\n";
    assert_eq!(parsed(next_action(&read(line))), Some("{\"raw\":512,\"voltage\":2.5}".to_string()));
}

#[test]
fn empty_reads_and_blank_lines_are_skipped() {
    assert!(matches!(next_action(&ReadOutcome::Read { count: 0, line: String::new() }), StepAction::Skip));
    assert!(matches!(next_action(&read("\r\n")), StepAction::Skip));
    assert!(matches!(next_action(&read("   \t  ")), StepAction::Skip));
}

#[test]
fn a_zero_byte_read_is_skipped_whatever_the_buffer_holds() {
    let outcome = ReadOutcome::Read { count: 0, line: "{\"raw\":1}".to_string() };
    assert!(matches!(next_action(&outcome), StepAction::Skip));
}

#[test]
fn timeouts_are_skipped() {
    assert!(matches!(next_action(&ReadOutcome::TimedOut), StepAction::Skip));
}

#[test]
fn read_errors_stop_the_stream() {
    match next_action(&ReadOutcome::Failed("broken pipe".to_string())) {
        StepAction::Abort(m) => assert_eq!(m, "serial read error: broken pipe"),
        _ => panic!("a failed read must stop the stream"),
    }
}

#[test]
fn parse_failure_message_quotes_the_line() {
    assert_eq!(
        parse_failure_message("garbage", "expected value at line 1 column 1"),
        "Failed to parse line `garbage`: expected value at line 1 column 1"
    );
}

#[test]
fn reading_line_right_aligns_the_raw_count() {
    assert_eq!(
        reading_line("2024-05-01T12:00:00+00:00", 512, "2.503"),
        "2024-05-01T12:00:00+00:00 | raw:  512 | voltage: 2.503 V"
    );
    assert_eq!(reading_line("t", -7, "0.000"), "t | raw:   -7 | voltage: 0.000 V");
    assert_eq!(reading_line("t", 12345, "5.000"), "t | raw: 12345 | voltage: 5.000 V");
}

#[test]
fn usb_ports_are_described_by_their_ids() {
    let ch340 = PortKind::Usb { vid: 0x1a86, pid: 0x7523, serial_number: None };
    assert_eq!(describe_port_type(&ch340), Some("USB VID:PID 1a86:7523 ".to_string()));
    let uno = PortKind::Usb { vid: 0x2341, pid: 0x43, serial_number: Some("8573".to_string()) };
    assert_eq!(describe_port_type(&uno), Some("USB VID:PID 2341:0043 (serial 8573)".to_string()));
}

#[test]
fn other_ports_are_described_by_their_bus() {
    assert_eq!(describe_port_type(&PortKind::Pci), Some("PCI".to_string()));
    assert_eq!(describe_port_type(&PortKind::Bluetooth), Some("Bluetooth".to_string()));
    assert_eq!(describe_port_type(&PortKind::Unknown), None);
}

#[test]
fn listing_with_no_ports_says_so() {
    assert_eq!(port_listing(&Vec::new()), "No serial ports detected.\n");
}

#[test]
fn listing_has_a_heading_and_a_line_per_port() {
    let ports = vec![
        PortEntry {
            port_name: "/dev/cu.usbserial-10".to_string(),
            kind: PortKind::Usb { vid: 0x1a86, pid: 0x7523, serial_number: None },
        },
        PortEntry { port_name: "/dev/ttyS0".to_string(), kind: PortKind::Unknown },
        PortEntry { port_name: "/dev/rfcomm0".to_string(), kind: PortKind::Bluetooth },
    ];
    assert_eq!(
        port_listing(&ports),
        "Detected serial ports:\n----------------------\n\
         /dev/cu.usbserial-10 \u{2014} USB VID:PID 1a86:7523 \n\
         /dev/ttyS0\n\
         /dev/rfcomm0 \u{2014} Bluetooth\n"
    );
}

#[test]
fn a_decoded_reading_is_handed_on() {
    match after_decode("{\"raw\":3}", Ok::<i32, String>(3)) {
        DecodeAction::Deliver(r) => assert_eq!(r, 3),
        DecodeAction::Warn(_) => panic!("a decoded reading must be handed on"),
    }
}

#[test]
fn an_undecodable_line_is_skipped_with_a_warning() {
    match after_decode::<i32>("hello", Err("expected value at line 1 column 1".to_string())) {
        DecodeAction::Warn(m) => {
            assert_eq!(m, "Failed to parse line `hello`: expected value at line 1 column 1")
        }
        DecodeAction::Deliver(_) => panic!("an undecodable line must not be handed on"),
    }
}
