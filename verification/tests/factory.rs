use zht::metrics::TransportMetrics;
use zht::transport::TransportFactory;

#[test]
fn test_create_tcp_client() {
    let c = TransportFactory::create_client("TCP").unwrap();
    assert_eq!(c.protocol_name(), "TCP");
}

#[test]
fn test_create_tcp_server() {
    let s = TransportFactory::create_server("TCP").unwrap();
    assert_eq!(s.protocol_name(), "TCP");
}

#[test]
fn test_create_udp_client() {
    let c = TransportFactory::create_client("UDP").unwrap();
    assert_eq!(c.protocol_name(), "UDP");
}

#[test]
fn test_create_udp_server() {
    let s = TransportFactory::create_server("UDP").unwrap();
    assert_eq!(s.protocol_name(), "UDP");
}

#[test]
fn test_create_pair_tcp() {
    let (c, s) = TransportFactory::create_pair("TCP").unwrap();
    assert_eq!(c.protocol_name(), "TCP");
    assert_eq!(s.protocol_name(), "TCP");
}

#[test]
fn test_create_pair_udp() {
    let (c, s) = TransportFactory::create_pair("UDP").unwrap();
    assert_eq!(c.protocol_name(), "UDP");
    assert_eq!(s.protocol_name(), "UDP");
}

#[test]
fn test_unsupported_protocol() {
    assert!(TransportFactory::create_client("MPI").is_err());
    assert!(TransportFactory::create_server("BLAH").is_err());
}

#[test]
fn test_case_insensitive() {
    assert_eq!(TransportFactory::create_client("tcp").unwrap().protocol_name(), "TCP");
    assert_eq!(TransportFactory::create_server("Udp").unwrap().protocol_name(), "UDP");
}

#[test]
fn test_with_metrics() {
    let m = TransportMetrics::new();
    let (c, s) = TransportFactory::create_pair("TCP").unwrap();
    assert_eq!(c.protocol_name(), "TCP");
    assert_eq!(s.protocol_name(), "TCP");
}
