use zht::metrics::TransportMetrics;

#[test]
fn test_metrics_initial_state() {
    let m = TransportMetrics::new();
    let s = m.snapshot();
    assert_eq!(s.messages_sent, 0);
    assert_eq!(s.active_connections, 0);
}

#[test]
fn test_metrics_increment() {
    let mut m = TransportMetrics::new();
    m.inc_messages_sent();
    m.inc_messages_sent();
    m.inc_messages_received();
    m.add_bytes_sent(1024);
    m.add_bytes_received(512);
    m.inc_active_connections();
    m.inc_connections_accepted();
    m.inc_requests_processed();
    m.inc_chunks_sent();
    m.inc_chunks_received();
    m.inc_send_errors();
    m.inc_recv_errors();
    m.inc_reconnections();
    m.inc_unknown_opcodes();

    let s = m.snapshot();
    assert_eq!(s.messages_sent, 2);
    assert_eq!(s.messages_received, 1);
    assert_eq!(s.bytes_sent, 1024);
    assert_eq!(s.bytes_received, 512);
    assert_eq!(s.active_connections, 1);
    assert_eq!(s.connections_opened, 1);
    assert_eq!(s.connections_accepted, 1);
    assert_eq!(s.requests_processed, 1);
    assert_eq!(s.chunks_sent, 1);
    assert_eq!(s.chunks_received, 1);
    assert_eq!(s.send_errors, 1);
    assert_eq!(s.recv_errors, 1);
    assert_eq!(s.reconnections, 1);
    assert_eq!(s.unknown_opcodes, 1);
}

#[test]
fn test_metrics_connection_lifecycle() {
    let mut m = TransportMetrics::new();
    m.inc_active_connections();
    m.inc_active_connections();
    assert_eq!(m.snapshot().active_connections, 2);
    assert_eq!(m.snapshot().connections_opened, 2);

    m.dec_active_connections();
    assert_eq!(m.snapshot().active_connections, 1);
    assert_eq!(m.snapshot().connections_closed, 1);

    m.set_active_connections(0);
    assert_eq!(m.snapshot().active_connections, 0);
}

#[test]
fn test_metrics_reset() {
    let mut m = TransportMetrics::new();
    m.inc_messages_sent();
    m.add_bytes_sent(999);
    m.reset();
    let s = m.snapshot();
    assert_eq!(s.messages_sent, 0);
    assert_eq!(s.bytes_sent, 0);
}

#[test]
fn test_metrics_display() {
    let mut m = TransportMetrics::new();
    m.inc_messages_sent();
    m.inc_active_connections();
    let s = m.snapshot();
    let text = s.to_string("0.0");
    assert!(text.contains("Messages: 1 sent"));
    assert!(text.contains("Connections: 1 active"));
}

#[test]
fn metrics_test_metrics_default() {
    let m = TransportMetrics::default();
    assert_eq!(m.snapshot().messages_sent, 0);
}

#[test]
fn active_is_opened_without_closed() {
    let mut m = TransportMetrics::new();
    let balanced = |m: &TransportMetrics| {
        let s = m.snapshot();
        s.active_connections == s.connections_opened.wrapping_sub(s.connections_closed)
    };
    for round in 0..50u32 {
        match round % 4 {
            0 | 1 => m.inc_active_connections(),
            2 => m.dec_active_connections(),
            _ => m.inc_reconnections(),
        }
        assert!(balanced(&m));
    }
    assert_eq!(m.snapshot().active_connections, 14);
    m.set_active_connections(0);
    assert!(!balanced(&m));
}
