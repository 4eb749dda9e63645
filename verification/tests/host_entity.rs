use zht::host_entity::HostEntity;

#[test]
fn test_host_entity_new() {
    let he = HostEntity::new("localhost", 50000);
    assert_eq!(he.host, "localhost");
    assert_eq!(he.port, 50000);
}

#[test]
fn test_host_entity_address() {
    let he = HostEntity::new("192.168.1.10", 8080);
    assert_eq!(he.address(), "192.168.1.10:8080");
}

#[test]
fn test_host_entity_from_address() {
    let he = HostEntity::from_address("192.168.1.10:8080").unwrap();
    assert_eq!(he.host, "192.168.1.10");
    assert_eq!(he.port, 8080);
}

#[test]
fn test_host_entity_from_address_missing_port() {
    assert!(HostEntity::from_address("justahost").is_none());
}

#[test]
fn test_host_entity_display() {
    let he = HostEntity::new("node1", 50001);
    assert_eq!(he.to_string(), "node1:50001");
}
