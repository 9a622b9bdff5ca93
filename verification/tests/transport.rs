use sdr_bullet::transport::{ControlRequest, MockTransport, Transport, TransportError};

#[test]
fn records_writes_in_order() {
    let mut t = MockTransport::new();
    t.control_out(ControlRequest::write(0x2000, 0x0110), &[0x09])
        .unwrap();
    t.control_out(ControlRequest::write(0x3000, 0x0210), &[0xE8])
        .unwrap();

    assert_eq!(t.writes().len(), 2);
    assert!(t.wrote(0x2000, 0x0110, &[0x09]));
    assert!(t.wrote(0x3000, 0x0210, &[0xE8]));
    assert!(t.position_of(0x2000, 0x0110) < t.position_of(0x3000, 0x0210));
}

#[test]
fn replays_queued_responses_then_falls_back_to_zeroes() {
    let mut t = MockTransport::new();
    t.push_response(vec![0x69]);

    let mut buf = [0u8; 1];
    t.control_in(ControlRequest::read(0x0074, 0x0600), &mut buf)
        .unwrap();
    assert_eq!(buf[0], 0x69);

    // With nothing queued, a read looks like an absent device rather than stale data.
    t.control_in(ControlRequest::read(0x0074, 0x0600), &mut buf)
        .unwrap();
    assert_eq!(buf[0], 0x00);
}

#[test]
fn failure_injection_stops_further_transfers() {
    let mut t = MockTransport::new();
    t.fail_after = Some(1);
    t.control_out(ControlRequest::write(1, 2), &[0])
        .unwrap();
    let err = t
        .control_out(ControlRequest::write(3, 4), &[0])
        .unwrap_err();
    assert_eq!(err, TransportError::Disconnected);
}

#[test]
fn wrote_does_not_match_on_a_different_payload() {
    let mut t = MockTransport::new();
    t.control_out(ControlRequest::write(0x2000, 0x0110), &[0x09])
        .unwrap();
    assert!(t.wrote(0x2000, 0x0110, &[0x09]));
    assert!(!t.wrote(0x2000, 0x0110, &[0x08]));
    assert!(!t.wrote(0x2001, 0x0110, &[0x09]));
}
