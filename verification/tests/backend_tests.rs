use ptouch::backend::BackendKind;
use ptouch::backend::PollAction;
use ptouch::backend::UsbReadOutcome;
use ptouch::backend::classify_host;
use ptouch::backend::parse_usb_specifier;
use ptouch::backend::poll_deadline_exceeded;
use ptouch::backend::poll_step;
use ptouch::backend::resolve_network_address;
use ptouch::backend::snmp_status_address;
use ptouch::backend::status_from_snmp_payload;
use ptouch::error::PtouchError;

#[test]
fn test_classify_host() {
    assert_eq!(classify_host("04f9:2085"), BackendKind::Usb);
    assert_eq!(classify_host("04F9:2085"), BackendKind::Usb);
    assert_eq!(classify_host("ptouch.local"), BackendKind::Network);
    assert_eq!(classify_host("192.168.1.100"), BackendKind::Network);
    // a port does not make a network host a USB specifier unless the host
    // part is hexadecimal too
    assert_eq!(classify_host("printer:9100"), BackendKind::Network);
    assert_eq!(classify_host("abc:def"), BackendKind::Usb);
    assert_eq!(classify_host("04f92085"), BackendKind::Network);
}

#[test]
fn test_parse_usb_specifier() {
    assert_eq!(parse_usb_specifier("04f9:2085").unwrap(), (0x04F9, 0x2085));
    assert_eq!(parse_usb_specifier("0x04f9:0x2085").unwrap(), (0x04F9, 0x2085));
    assert_eq!(parse_usb_specifier("FFFF:0").unwrap(), (0xFFFF, 0));
    assert!(matches!(
        parse_usb_specifier("04f9"),
        Err(PtouchError::MalformedDeviceSpecifier)
    ));
    assert!(matches!(
        parse_usb_specifier("zzzz:2085"),
        Err(PtouchError::MalformedDeviceSpecifier)
    ));
    assert!(matches!(
        parse_usb_specifier("10000:1"),
        Err(PtouchError::MalformedDeviceSpecifier)
    ));
    assert!(matches!(
        parse_usb_specifier(":2085"),
        Err(PtouchError::MalformedDeviceSpecifier)
    ));
}

#[test]
fn test_resolve_network_address_defaults_the_port() {
    assert_eq!(resolve_network_address("printer.local"), "printer.local:9100");
    assert_eq!(resolve_network_address("printer.local:515"), "printer.local:515");
}

#[test]
fn test_snmp_status_address_strips_the_port() {
    assert_eq!(snmp_status_address("printer.local"), "printer.local:161");
    assert_eq!(snmp_status_address("printer.local:9100"), "printer.local:161");
}

#[test]
fn test_status_from_snmp_payload_accepts_exactly_32_bytes() {
    let mut payload = vec![0u8; 32];
    payload[10] = 18;
    let status = status_from_snmp_payload(&payload).unwrap();
    assert_eq!(status.media_width_mm(), 18);

    let short = vec![0u8; 31];
    let result = status_from_snmp_payload(&short);
    assert!(matches!(result, Err(PtouchError::StatusLength { got: 31 })));
    let msg = result.err().unwrap().message();
    assert_eq!(msg, "Invalid status data length: expected 32 bytes, got 31");

    let long = vec![0u8; 33];
    assert!(matches!(
        status_from_snmp_payload(&long),
        Err(PtouchError::StatusLength { got: 33 })
    ));
}

#[test]
fn test_poll_policy() {
    assert_eq!(
        poll_step(&UsbReadOutcome::Received { count: 32 }, 0),
        PollAction::Accept
    );
    assert_eq!(
        poll_step(&UsbReadOutcome::Received { count: 40 }, 2500),
        PollAction::Accept
    );
    assert_eq!(
        poll_step(&UsbReadOutcome::Received { count: 10 }, 0),
        PollAction::Retry { delay_ms: 5 }
    );
    assert_eq!(
        poll_step(&UsbReadOutcome::TimedOut, 1999),
        PollAction::Retry { delay_ms: 100 }
    );
    assert_eq!(
        poll_step(&UsbReadOutcome::TimedOut, 2000),
        PollAction::FailDisconnected
    );
    assert_eq!(
        poll_step(&UsbReadOutcome::Failed, 2500),
        PollAction::Retry { delay_ms: 5 }
    );
    assert!(!poll_deadline_exceeded(3000));
    assert!(poll_deadline_exceeded(3001));
}
