use zht::conf_entry::ConfEntry;
use zht::config::{AppConfig, FileContents, NeighborConfig, ZhtConfig};
use zht::error::ZhtError;
use zht::hash_util::HashUtil;
use zht::host_entity::HostEntity;
use zht::id_helper::IdHelper;
use zht::metrics::TransportMetrics;
use zht::number::{decimal_of, hex_padded_of, left_aligned_of, parse_signed_of, read_unsigned, right_aligned_of, NumberError};
use zht::startup::{check_protocol, effective_port};
use zht::text::{contains_text, same_text, split_text, starts_with, text_lines, trimmed, utf8_bytes};
use zht::transport::{find_protocol, Protocol, TransportFactory};

// ── Text ────────────────────────────────────────────────────────────────

#[test]
fn text_pieces() {
    assert_eq!(trimmed(" \t\u{3000}a b\u{a0}\r\n"), "a b");
    assert_eq!(trimmed("\u{200b}x"), "\u{200b}x");
    assert_eq!(split_text("a\t\tb", '\t'), vec!["a", "", "b"]);
    assert_eq!(split_text("", '\t'), vec![""]);
    assert_eq!(text_lines("a\r\n\nb\r"), vec!["a", "", "b\r"]);
    assert_eq!(text_lines("a\n"), vec!["a"]);
    assert!(text_lines("").is_empty());
    assert!(starts_with("000value", "000"));
    assert!(!starts_with("00", "000"));
    assert!(starts_with("é", ""));
    assert!(contains_text("aab", "ab"));
    assert!(!contains_text("aab", "ba"));
    assert!(contains_text("", ""));
    assert!(same_text("日本", "日本"));
    assert!(!same_text("a", "ab"));
    assert_eq!(utf8_bytes("é"), vec![0xc3, 0xa9]);
}

// ── Numbers ─────────────────────────────────────────────────────────────

#[test]
fn numbers_as_text() {
    assert_eq!(decimal_of(0), "0");
    assert_eq!(decimal_of(u64::MAX), "18446744073709551615");
    assert_eq!(hex_padded_of(0xbeef, 8), "0000beef");
    assert_eq!(hex_padded_of(0x12345, 3), "12345");
    assert_eq!(right_aligned_of("42", 5), "   42");
    assert_eq!(left_aligned_of("42", 5), "42   ");
    assert_eq!(left_aligned_of("12345678", 7), "12345678");
}

#[test]
fn numbers_from_text() {
    for n in [0u64, 7, 10, 65535, u64::MAX] {
        assert_eq!(read_unsigned(&decimal_of(n), u64::MAX), Ok(n));
    }
    assert_eq!(read_unsigned("+007", 9), Ok(7));
    assert_eq!(read_unsigned("", 9), Err(NumberError::Empty));
    assert_eq!(read_unsigned("+", 9), Err(NumberError::InvalidDigit));
    assert_eq!(read_unsigned("-1", 9), Err(NumberError::InvalidDigit));
    assert_eq!(read_unsigned("10", 9), Err(NumberError::TooLarge));
    assert_eq!(read_unsigned("10x", 9), Err(NumberError::TooLarge));
    assert_eq!(read_unsigned("1x0", 9), Err(NumberError::InvalidDigit));
    assert_eq!(NumberError::TooLarge.to_string(), "999".parse::<u8>().unwrap_err().to_string());
    assert_eq!(NumberError::InvalidDigit.to_string(), "x".parse::<u8>().unwrap_err().to_string());
    assert_eq!(NumberError::Empty.to_string(), "".parse::<u8>().unwrap_err().to_string());
    assert_eq!(parse_signed_of("-12", -12, 5), Some(-12));
    assert_eq!(parse_signed_of("6", -12, 5), None);
    assert_eq!(ConfEntry::new("N", "-2147483648").parse_value::<i32>(), Some(i32::MIN));
    assert_eq!(ConfEntry::new("N", "2147483648").parse_value::<i32>(), None);
    assert_eq!(ConfEntry::new("N", "-").parse_value::<i32>(), None);
    assert_eq!(ConfEntry::new("N", "+1").parse_value::<i32>(), Some(1));
}

// ── Hashes and identifiers ──────────────────────────────────────────────

#[test]
fn hash_values() {
    assert_eq!(HashUtil::gen_hash_str(""), 0);
    assert_eq!(HashUtil::gen_hash_str("a"), 97);
    assert_eq!(HashUtil::gen_hash_str("ab"), 97 * 65599 + 98);
    assert_eq!(HashUtil::gen_hash_str("hello"), 7416051667693574450);
    assert_eq!(HashUtil::gen_hash_str("日本"), 200426007873587266);
}

#[test]
fn hash_stops_at_nul() {
    assert_eq!(HashUtil::gen_hash(b"abc\0def"), HashUtil::gen_hash(b"abc"));
    assert_eq!(HashUtil::gen_hash(b"\0def"), 0);
}

#[test]
fn generated_strings() {
    assert_eq!(HashUtil::random_string_from(42, 10), "0vUUcRDsCp");
    assert_eq!(HashUtil::random_string_from(0, 3), "000");
    assert_eq!(
        HashUtil::gen_hash_str(&HashUtil::random_string_from(42, 62)),
        7660110862252971339,
    );
    let s = HashUtil::random_string(200);
    assert_eq!(s.len(), 200);
    assert!(s.chars().all(|c| c.is_ascii_alphanumeric()));
    // The clock gives the seed: what comes out is not what the fallback gives.
    assert_ne!(s, HashUtil::random_string_from(42, 200));
    for len in [0, 3, 16, 24] {
        let id = IdHelper::gen_id_string(len);
        assert_eq!(id.len(), len);
        assert!(id.chars().all(|c| c.is_ascii_hexdigit()));
    }
    assert!(IdHelper::gen_id_string(24).starts_with("00000000"));
}

// ── Nodes ───────────────────────────────────────────────────────────────

#[test]
fn addresses_round_trip() {
    for (host, port) in [("localhost", 50000u16), ("", 0), ("::1", 65535), ("a:b", 7)] {
        let node = HostEntity::new(host, port);
        assert_eq!(HostEntity::from_address(&node.address()), Some(node));
    }
    assert_eq!(HostEntity::new("h", 1).to_string(), "h:1");
    assert_eq!(HostEntity::from_address("h:65536"), None);
    assert_eq!(HostEntity::from_address("h"), None);
    assert_eq!(HostEntity::from_address("h:"), None);
    assert_eq!(HostEntity::from(("h".to_string(), 2)), HostEntity::from(("h", 2)));
}

// ── Configuration ───────────────────────────────────────────────────────

#[test]
fn entries_round_trip() {
    for (name, value) in [("PORT", "50000"), ("FLAG", ""), ("PATH", "data/日")] {
        let entry = ConfEntry::new(name, value);
        assert_eq!(ConfEntry::from_line(&entry.to_string()), Some(entry));
    }
    let entry = ConfEntry::from_line("  NAME \t a  b \r").unwrap();
    assert_eq!((entry.name(), entry.value()), ("NAME", "a"));
    assert_eq!(ConfEntry::from_line(&entry.to_string()), Some(entry));
}

#[test]
fn second_token_is_the_value() {
    let config = zht("PORT 6000 # the port\nHTDATA_PATH data/a b\n");
    assert_eq!(config.port(), 6000);
    assert_eq!(config.htdata_path(), "data/a");
}

#[test]
fn empty_value_gives_the_default() {
    let empty = ConfEntry::new("NAME", "");
    assert_eq!(empty.value_or("fallback".to_string()), "fallback");
    assert_eq!(empty.parse_value::<String>(), Some(String::new()));
    assert_eq!(ConfEntry::new("NAME", "x").value_or("fallback".to_string()), "x");
    assert_eq!(ConfEntry::new("NAME", "x").value_or(7u16), 7);
    assert_eq!(ConfEntry::new("NAME", "255").value_or(7u8), 255);
    assert_eq!(ConfEntry::new("NAME", "256").value_or(7u8), 7);
    assert_eq!(ConfEntry::new("NAME", "-9223372036854775808").parse_value::<i64>(), Some(i64::MIN));
    assert_eq!(ConfEntry::new("NAME", "9223372036854775808").parse_value::<i64>(), None);
    assert_eq!(ConfEntry::new("NAME", "true").parse_value::<bool>(), Some(true));
    assert_eq!(ConfEntry::new("NAME", "True").parse_value::<bool>(), None);
}

#[test]
fn configuration_remembers_its_paths() {
    let text = |s: &str| FileContents::Text(s.to_string());
    let config = AppConfig::load("conf/z", text("PORT 1\n"), "conf/n", text("a 1\n")).unwrap();
    assert_eq!(config.zht.zht_conf_path, "conf/z");
    assert_eq!(config.neighbors.neighbor_conf_path, "conf/n");
}

fn zht(text: &str) -> ZhtConfig {
    ZhtConfig::load("zht.conf", FileContents::Text(text.to_string())).unwrap()
}

#[test]
fn last_setting_wins() {
    let config = zht("PORT 1\n# PORT 9\nMAX_ZHT 3\nPORT 2\n");
    assert_eq!(config.port(), 2);
    assert_eq!(config.max_zht(), 3);
}

#[test]
fn parameters_and_their_defaults() {
    let config = zht("");
    assert_eq!(config.protocol(), "TCP");
    assert_eq!(config.port(), 50000);
    assert_eq!(config.msg_maxsize(), 1024);
    assert_eq!(config.sccb_poll_interval(), 100);
    assert!(!config.instant_swap());
    assert_eq!(config.max_zht(), 512);
    assert_eq!(config.num_replicas(), 0);
    assert_eq!(config.replication_type(), 0);
    assert_eq!(config.zht_capacity(), 4);
    assert_eq!(config.htdata_path(), "data/");
    assert_eq!(config.migslp_time(), 1_000_000);
    let config = zht("PORT none\nINSTANT_SWAP 2\n");
    assert_eq!(config.port(), 50000);
    assert!(!config.instant_swap());
    assert_eq!(config.get("PORT"), Some("none"));
    assert_eq!(config.get("NOWHERE"), None);
}

#[test]
fn configuration_errors() {
    assert!(matches!(
        ZhtConfig::load("z", FileContents::Missing),
        Err(ZhtError::ConfigNotFound { path }) if path == "z"
    ));
    assert!(matches!(
        NeighborConfig::load("n", FileContents::Unreadable("denied".to_string())),
        Err(ZhtError::ConfigParseError { path, reason }) if path == "n" && reason == "denied"
    ));
    let text = |s: &str| FileContents::Text(s.to_string());
    let error = NeighborConfig::load("n", text("# nodes\n\nhost 70000\n")).unwrap_err();
    assert_eq!(
        error.to_string(),
        "invalid configuration value for 'PORT': invalid port '70000' in n line 3",
    );
    let error = NeighborConfig::load("n", text("a 1\nlonely\n")).unwrap_err();
    assert_eq!(
        error.to_string(),
        "invalid configuration value for 'PORT': missing port in n line 2",
    );
    let config = AppConfig::load("z", text(""), "n", text("")).unwrap();
    assert!(matches!(config.resolve_node("k"), Err(ZhtError::NoDestinationNode(k)) if k == "k"));
}

#[test]
fn keys_route_by_hash() {
    let text = |s: &str| FileContents::Text(s.to_string());
    let config = AppConfig::load("z", text(""), "n", text("a 1 ignored\nb\t2\n  c   3\n")).unwrap();
    assert_eq!(config.node_count(), 3);
    // 'a' hashes to 97 and "ab" to 6363201
    assert_eq!(config.resolve_node("a").unwrap(), &HostEntity::new("b", 2));
    assert_eq!(config.resolve_node("ab").unwrap(), &HostEntity::new("a", 1));
    assert_eq!(config.resolve_node("hello").unwrap(), &HostEntity::new("c", 3));
    assert_eq!(config.neighbors.get(2), Some(&HostEntity::new("c", 3)));
    assert_eq!(config.neighbors.get(3), None);
}

// ── Startup and protocols ───────────────────────────────────────────────

#[test]
fn protocols_of_a_server() {
    assert_eq!(check_protocol("TCP"), Ok(()));
    assert_eq!(check_protocol("UDP"), Ok(()));
    assert_eq!(check_protocol("MPI"), Ok(()));
    assert_eq!(
        check_protocol("tcp"),
        Err("Unsupported protocol 'tcp'. Must be one of: TCP, UDP, MPI".to_string()),
    );
    assert_eq!(effective_port(Some(1), 2), 1);
    assert_eq!(effective_port(None, 2), 2);
}

#[test]
fn transports_by_name() {
    assert_eq!(find_protocol("TCP"), Some(Protocol::Tcp));
    assert_eq!(find_protocol("tcp"), None);
    assert_eq!(TransportFactory::create_client("tCp").unwrap().protocol_name(), "TCP");
    assert_eq!(TransportFactory::create_server("udp").unwrap().protocol_name(), "UDP");
    // The capital letter of a sharp s is two letters.
    match TransportFactory::create_client("ß") {
        Err(e) => assert_eq!(e.to_string(), "unsupported protocol: SS"),
        Ok(_) => panic!("there is no such protocol"),
    }
}

#[test]
fn transports_take_their_metrics() {
    let counted = || {
        let mut m = TransportMetrics::new();
        m.inc_unknown_opcodes();
        m
    };
    for name in ["TCP", "UDP"] {
        let client = TransportFactory::create_client_with_metrics(name, counted()).unwrap();
        let snapshot = match &client {
            zht::transport::TransportClientEnum::Tcp(p) => p.metrics().snapshot(),
            zht::transport::TransportClientEnum::Udp(p) => p.metrics().snapshot(),
        };
        assert_eq!(snapshot.unknown_opcodes, 1);
        assert_eq!(client.connection_count(), 0);
        let server = TransportFactory::create_server_with_metrics(name, counted()).unwrap();
        assert_eq!(server.metrics().unwrap().snapshot().unknown_opcodes, 1);
    }
}

// ── Reports ─────────────────────────────────────────────────────────────

#[test]
fn metrics_report() {
    let mut m = TransportMetrics::new();
    m.inc_messages_sent();
    m.add_bytes_sent(10);
    m.inc_active_connections();
    assert_eq!(
        m.snapshot().to_string("1.5"),
        "Transport Metrics (uptime: 1.5s)\n  Messages: 1 sent / 0 received\n  Bytes: 10 sent / 0 received\n  Connections: 1 active / 1 opened / 0 closed\n  Errors: 0 send / 0 recv\n",
    );
    m.inc_reconnections();
    m.inc_connections_accepted();
    m.inc_requests_processed();
    m.inc_chunks_received();
    assert!(m.snapshot().to_string("0").ends_with(
        "  Reconnections: 1\n  Server accepted: 1 connections / 1 requests processed\n  Chunks: 0 sent / 1 received\n",
    ));
}

#[test]
fn active_connections_are_opened_without_closed() {
    let mut m = TransportMetrics::new();
    for _ in 0..5 {
        m.inc_active_connections();
    }
    m.dec_active_connections();
    let s = m.snapshot();
    assert_eq!(s.active_connections, s.connections_opened - s.connections_closed);
    m.set_active_connections(0);
    assert_eq!(m.snapshot().active_connections, 0);
    m.reset();
    assert_eq!(m.snapshot().connections_opened, 0);
}

#[test]
fn error_messages() {
    let s = |t: &str| t.to_string();
    let cases = [
        (ZhtError::ConfigNotFound { path: s("p") }, "configuration file not found: p"),
        (ZhtError::ConfigParseError { path: s("p"), reason: s("r") }, "failed to parse configuration file: p: r"),
        (ZhtError::MissingConfigParam { param: s("x") }, "missing required configuration parameter: x"),
        (ZhtError::InvalidConfigValue { param: s("x"), reason: s("r") }, "invalid configuration value for 'x': r"),
        (ZhtError::ConnectionFailed { host: s("h"), port: 1, reason: s("r") }, "connection failed to h:1: r"),
        (ZhtError::SendFailed(s("r")), "send failed: r"),
        (ZhtError::RecvFailed(s("r")), "receive failed: r"),
        (ZhtError::UnsupportedProtocol(s("X")), "unsupported protocol: X"),
        (ZhtError::EmptyKey, "empty key in operation"),
        (ZhtError::KeyNotFound(s("k")), "key not found: k"),
        (ZhtError::CasMismatch { expected: s("a"), actual: s("b") }, "compare-and-swap mismatch: expected 'a', got 'b'"),
        (ZhtError::LeaseExpired { lease_ms: 5 }, "state change callback lease expired after 5ms"),
        (ZhtError::NoDestinationNode(s("k")), "no destination node for key: k"),
        (ZhtError::StorageError(s("r")), "storage error: r"),
        (ZhtError::PersistenceError { path: s("p"), reason: s("r") }, "failed to persist data to file: p: r"),
        (ZhtError::ProtobufEncodeError(s("r")), "protobuf serialization failed: r"),
        (ZhtError::ProtobufDecodeError(s("r")), "protobuf deserialization failed: r"),
        (ZhtError::Timeout { timeout_ms: 9 }, "operation timed out after 9ms"),
        (ZhtError::UnrecognizedOpCode(s("777")), "unrecognized operation code: 777"),
        (ZhtError::Internal(s("anything")), "anything"),
    ];
    for (error, words) in cases {
        assert_eq!(error.to_string(), words);
    }
}

#[test]
fn copied_configuration_is_the_same() {
    let text = |s: &str| FileContents::Text(s.to_string());
    let zht_text = "PORT 6000\nPROTOCOL UDP\nPORT 7000\nFLAG\n";
    let mut config = AppConfig::load("conf/z", text(zht_text), "conf/n", text("a 1\nb 2\n")).unwrap();
    let copy = config.clone();
    config.zht.zht_conf_path.push('x');
    config.neighbors.neighbors.clear();
    assert_eq!(copy.zht.port(), 7000);
    assert_eq!(copy.zht.protocol(), "UDP");
    assert_eq!(copy.get("FLAG"), Some(""));
    assert_eq!(copy.get("NOWHERE"), None);
    assert_eq!(copy.zht.zht_conf_path, "conf/z");
    assert_eq!(copy.neighbors.neighbors, vec![HostEntity::new("a", 1), HostEntity::new("b", 2)]);
    assert_eq!(copy.neighbors.neighbor_conf_path, "conf/n");
}
