use zht::config::{AppConfig, FileContents, NeighborConfig, ZhtConfig};
use zht::error::ZhtError;

#[test]
fn test_load_zht_config() {
    let content = r#"
# Comment line
PROTOCOL TCP
PORT 50000
MSG_MAXSIZE 1000000
SCCB_POLL_INTERVAL 100
INSTANT_SWAP 0
"#;
    let file = FileContents::Text(content.to_string());
    let config = ZhtConfig::load("zht.conf", file).unwrap();

    assert_eq!(config.protocol(), "TCP");
    assert_eq!(config.port(), 50000);
    assert_eq!(config.msg_maxsize(), 1_000_000);
    assert_eq!(config.sccb_poll_interval(), 100);
    assert!(!config.instant_swap());
}

#[test]
fn test_load_zht_config_defaults() {
    let content = "PROTOCOL UDP\n";
    let file = FileContents::Text(content.to_string());
    let config = ZhtConfig::load("zht.conf", file).unwrap();

    assert_eq!(config.protocol(), "UDP");
    assert_eq!(config.port(), 50000); // default
    assert_eq!(config.sccb_poll_interval(), 100); // default
}

#[test]
fn test_load_zht_config_missing_file() {
    let result = ZhtConfig::load("/nonexistent/path/zht.conf", FileContents::Missing);
    assert!(matches!(result, Err(ZhtError::ConfigNotFound { .. })));
}

#[test]
fn test_load_neighbor_config() {
    let content = "localhost 50000\n192.168.1.10 50001\nnode3.local 50002\n";
    let file = FileContents::Text(content.to_string());
    let config = NeighborConfig::load("neighbor.conf", file).unwrap();

    assert_eq!(config.node_count(), 3);
    assert_eq!(config.get(0).unwrap().host, "localhost");
    assert_eq!(config.get(0).unwrap().port, 50000);
    assert_eq!(config.get(1).unwrap().host, "192.168.1.10");
    assert_eq!(config.get(2).unwrap().port, 50002);
}

#[test]
fn test_load_neighbor_config_with_comments() {
    let content = "# Cluster nodes\nlocalhost 50000\n# Another node\nnode2 50001\n\n";
    let file = FileContents::Text(content.to_string());
    let config = NeighborConfig::load("neighbor.conf", file).unwrap();

    assert_eq!(config.node_count(), 2);
}

#[test]
fn test_load_neighbor_config_empty() {
    let content = "# Only comments\n";
    let file = FileContents::Text(content.to_string());
    let config = NeighborConfig::load("neighbor.conf", file).unwrap();

    assert_eq!(config.node_count(), 0);
}

#[test]
fn test_neighbor_find_index() {
    let content = "localhost 50000\nnode2 50001\n";
    let file = FileContents::Text(content.to_string());
    let config = NeighborConfig::load("neighbor.conf", file).unwrap();

    assert_eq!(config.find_index("localhost", 50000), Some(0));
    assert_eq!(config.find_index("node2", 50001), Some(1));
    assert_eq!(config.find_index("nonexistent", 9999), None);
}

#[test]
fn test_app_config_load_and_resolve() {
    let zht_content = "PROTOCOL TCP\nPORT 50000\n";
    let neighbor_content = "localhost 50000\nnode2 50001\nnode3 50002\n";

    let zht_file = FileContents::Text(zht_content.to_string());
    let neighbor_file = FileContents::Text(neighbor_content.to_string());

    let app = AppConfig::load("zht.conf", zht_file, "neighbor.conf", neighbor_file).unwrap();

    assert_eq!(app.node_count(), 3);
    assert_eq!(app.zht.protocol(), "TCP");

    // Verify zero-hop routing determinism
    let node = app.resolve_node("test_key").unwrap();
    let node2 = app.resolve_node("test_key").unwrap();
    assert_eq!(node.host, node2.host);
    assert_eq!(node.port, node2.port);
}

#[test]
fn test_app_config_empty_neighbors() {
    let zht_content = "PROTOCOL TCP\n";
    let neighbor_content = "# empty\n";

    let zht_file = FileContents::Text(zht_content.to_string());
    let neighbor_file = FileContents::Text(neighbor_content.to_string());

    let app = AppConfig::load("zht.conf", zht_file, "neighbor.conf", neighbor_file).unwrap();
    let result = app.resolve_node("any_key");
    assert!(matches!(result, Err(ZhtError::NoDestinationNode(_))));
}

#[test]
fn test_zht_config_get_raw() {
    let content = "CUSTOM_PARAM custom_value\n";
    let file = FileContents::Text(content.to_string());
    let config = ZhtConfig::load("zht.conf", file).unwrap();

    assert_eq!(config.get("CUSTOM_PARAM"), Some("custom_value"));
    assert_eq!(config.get("NONEXISTENT"), None);
    assert_eq!(config.get_or("NONEXISTENT", "default"), "default");
}
