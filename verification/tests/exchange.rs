use zht::connection::{
    health_ping, is_connection_broken_error, ConnectionPool, ConnectionStats, Exchange,
    ExchangeEvent, ExchangeStep,
};
use zht::constants::{OPC_INSERT, OPC_LOOKUP, REC_EMPTYKEY, REC_SUCC, REC_UOPC};
use zht::error::{ZhtError, ZhtResult};
use zht::framing::{decode_message, encode_message};
use zht::novoht::NoVoHT;
use zht::worker::HTWorker;
use zht::zpack::ZPack;

const HOST: &str = "127.0.0.1";
const PORT: u16 = 50123;

/// A server at the other end of the wire, and the faults that are still to come.
struct Net {
    worker: HTWorker,
    reachable: bool,
    send_faults: Vec<ZhtError>,
    receive_faults: Vec<ZhtError>,
    connects: usize,
}

impl Net {
    fn new() -> Net {
        Net {
            worker: HTWorker::new(NoVoHT::new()),
            reachable: true,
            send_faults: vec![],
            receive_faults: vec![],
            connects: 0,
        }
    }
}

fn make_zpack(opcode: &str, key: &str, val: &str) -> ZPack {
    let mut z = ZPack::default();
    z.opcode = opcode.as_bytes().to_vec();
    z.key = key.as_bytes().to_vec();
    z.val = val.as_bytes().to_vec();
    z
}

fn drive(
    pool: &mut ConnectionPool,
    net: &mut Net,
    exchange: &mut Exchange,
    request: &ZPack,
    now: u64,
) -> ZhtResult<Option<ZPack>> {
    let mut event = ExchangeEvent::Started;
    loop {
        event = match exchange.on_event(pool, event, now) {
            ExchangeStep::Connect => {
                net.connects += 1;
                if net.reachable {
                    ExchangeEvent::Connected
                } else {
                    ExchangeEvent::ConnectFailed("Connection refused".to_string())
                }
            }
            ExchangeStep::Send => match net.send_faults.pop() {
                Some(e) => ExchangeEvent::SendFailed(e),
                None => ExchangeEvent::Sent,
            },
            ExchangeStep::Receive => match net.receive_faults.pop() {
                Some(e) => ExchangeEvent::ReceiveFailed(e),
                None => {
                    let frame = encode_message(request);
                    let (arrived, _) = decode_message(&frame).unwrap();
                    let response = net.worker.process(&arrived).response().unwrap();
                    let frame = encode_message(&response);
                    let (back, _) = decode_message(&frame).unwrap();
                    ExchangeEvent::Received(back)
                }
            },
            ExchangeStep::Done(result) => return result,
        };
    }
}

fn sendrecv(pool: &mut ConnectionPool, net: &mut Net, request: &ZPack, now: u64) -> ZhtResult<ZPack> {
    let mut exchange = Exchange::sendrecv(HOST, PORT, request);
    drive(pool, net, &mut exchange, request, now).map(|r| r.unwrap())
}

fn batch_sendrecv(pool: &mut ConnectionPool, net: &mut Net, messages: &[ZPack]) -> Vec<ZhtResult<ZPack>> {
    messages.iter().map(|m| sendrecv(pool, net, m, 1)).collect()
}

#[test]
fn test_tcp_proxy_new() {
    let proxy = ConnectionPool::new();
    assert_eq!(proxy.connection_count(), 0);
}

#[test]
fn test_tcp_proxy_default() {
    let proxy = ConnectionPool::default();
    assert_eq!(proxy.connection_count(), 0);
}

#[test]
fn test_server_and_client_integration() {
    let (mut pool, mut net) = (ConnectionPool::new(), Net::new());
    let resp = sendrecv(&mut pool, &mut net, &make_zpack(OPC_INSERT, "integ_key", "integ_val"), 1).unwrap();
    assert_eq!(resp.lease, REC_SUCC.as_bytes().to_vec());
    let resp = sendrecv(&mut pool, &mut net, &make_zpack(OPC_LOOKUP, "integ_key", ""), 2).unwrap();
    assert!(String::from_utf8_lossy(&resp.lease).starts_with(REC_SUCC));
    assert_eq!(resp.val, b"integ_val".to_vec());
}

#[test]
fn test_connection_reuse() {
    let (mut pool, mut net) = (ConnectionPool::new(), Net::new());
    sendrecv(&mut pool, &mut net, &make_zpack(OPC_INSERT, "reuse_key", "reuse_val"), 1).unwrap();
    assert_eq!(pool.connection_count(), 1);
    sendrecv(&mut pool, &mut net, &make_zpack(OPC_LOOKUP, "reuse_key", ""), 2).unwrap();
    assert_eq!(pool.connection_count(), 1);
    assert_eq!(net.connects, 1);
}

#[test]
fn test_close_connection() {
    let mut pool = ConnectionPool::new();
    pool.close_connection("localhost", 9999);
    assert_eq!(pool.connection_count(), 0);
    pool.close_all();
    assert_eq!(pool.connection_count(), 0);
}

#[test]
fn test_is_connected_initial() {
    let pool = ConnectionPool::new();
    assert!(!pool.is_connected("127.0.0.1", 9999));
}

#[test]
fn test_is_connected_after_establish() {
    let (mut pool, mut net) = (ConnectionPool::new(), Net::new());
    assert!(!pool.is_connected(HOST, PORT));
    sendrecv(&mut pool, &mut net, &make_zpack(OPC_INSERT, "ck", "cv"), 1).unwrap();
    assert!(pool.is_connected(HOST, PORT));
    pool.close_connection(HOST, PORT);
    assert!(!pool.is_connected(HOST, PORT));
}

#[test]
fn test_connection_stats_tracking() {
    let (mut pool, mut net) = (ConnectionPool::new(), Net::new());
    assert!(pool.stats(HOST, PORT).is_none());
    sendrecv(&mut pool, &mut net, &make_zpack(OPC_INSERT, "stats_key", "stats_val"), 1).unwrap();
    let stats = pool.stats(HOST, PORT).unwrap();
    assert_eq!(stats.messages_sent, 1);
    assert_eq!(stats.messages_received, 1);
    assert!(stats.bytes_sent > 0);
    assert!(stats.bytes_received > 0);
    assert_eq!(stats.errors, 0);
    sendrecv(&mut pool, &mut net, &make_zpack(OPC_LOOKUP, "stats_key", ""), 2).unwrap();
    let stats = pool.stats(HOST, PORT).unwrap();
    assert_eq!(stats.messages_sent, 2);
    assert_eq!(stats.messages_received, 2);
}

#[test]
fn test_connection_stats_bytes() {
    let (mut pool, mut net) = (ConnectionPool::new(), Net::new());
    let req = make_zpack(OPC_INSERT, "bytes_key", "bytes_val");
    sendrecv(&mut pool, &mut net, &req, 1).unwrap();
    let stats = pool.stats(HOST, PORT).unwrap();
    assert!(stats.bytes_sent >= 4);
    assert!(stats.bytes_received >= 4);
    let expected_send_len = 4 + req.encoded_len();
    assert_eq!(stats.bytes_sent, expected_send_len as u64);
    // 4 prefix + (2 + 3) opcode + (2 + 9) key + (2 + 9) value
    assert_eq!(stats.bytes_sent, 31);
    // 4 prefix + (2 + 3) opcode + (2 + 9) key + (2 + 3) lease
    assert_eq!(stats.bytes_received, 25);
}

#[test]
fn test_connection_stats_last_activity() {
    let (mut pool, mut net) = (ConnectionPool::new(), Net::new());
    let req = make_zpack(OPC_INSERT, "la_key", "la_val");
    sendrecv(&mut pool, &mut net, &req, 10).unwrap();
    let first = pool.stats(HOST, PORT).unwrap().last_activity;
    sendrecv(&mut pool, &mut net, &req, 25).unwrap();
    let second = pool.stats(HOST, PORT).unwrap().last_activity;
    assert_eq!((first, second), (10, 25));
}

#[test]
fn test_close_connection_clears_stats() {
    let (mut pool, mut net) = (ConnectionPool::new(), Net::new());
    sendrecv(&mut pool, &mut net, &make_zpack(OPC_INSERT, "clear_key", "clear_val"), 1).unwrap();
    assert!(pool.stats(HOST, PORT).is_some());
    pool.close_connection(HOST, PORT);
    assert!(pool.stats(HOST, PORT).is_none());
}

#[test]
fn test_batch_sendrecv() {
    let (mut pool, mut net) = (ConnectionPool::new(), Net::new());
    let messages = vec![
        make_zpack(OPC_INSERT, "batch_k1", "batch_v1"),
        make_zpack(OPC_INSERT, "batch_k2", "batch_v2"),
        make_zpack(OPC_INSERT, "batch_k3", "batch_v3"),
    ];
    let results = batch_sendrecv(&mut pool, &mut net, &messages);
    assert_eq!(results.len(), 3);
    for result in &results {
        assert_eq!(result.as_ref().unwrap().lease, REC_SUCC.as_bytes().to_vec());
    }
    let stats = pool.stats(HOST, PORT).unwrap();
    assert_eq!(stats.messages_sent, 3);
    assert_eq!(stats.messages_received, 3);
}

#[test]
fn test_batch_sendrecv_empty() {
    let (mut pool, mut net) = (ConnectionPool::new(), Net::new());
    assert!(batch_sendrecv(&mut pool, &mut net, &[]).is_empty());
    assert_eq!(net.connects, 0);
}

#[test]
fn test_batch_sendrecv_partial_failure() {
    let (mut pool, mut net) = (ConnectionPool::new(), Net::new());
    let messages = vec![
        make_zpack(OPC_INSERT, "good_key", "good_val"),
        make_zpack(OPC_INSERT, "", "empty_key_val"),
        make_zpack(OPC_LOOKUP, "good_key", ""),
    ];
    let results = batch_sendrecv(&mut pool, &mut net, &messages);
    assert_eq!(results.len(), 3);
    assert!(results[0].is_ok());
    assert_eq!(results[1].as_ref().unwrap().lease, REC_EMPTYKEY.as_bytes().to_vec());
    assert_eq!(results[2].as_ref().unwrap().val, b"good_val".to_vec());
}

#[test]
fn test_health_check_success() {
    let (mut pool, mut net) = (ConnectionPool::new(), Net::new());
    // The ping has no key, which is refused before its opcode is looked at.
    let ping = health_ping();
    assert_eq!(ping.opcode, b"999".to_vec());
    let resp = sendrecv(&mut pool, &mut net, &ping, 1).unwrap();
    assert_eq!(resp.lease, REC_EMPTYKEY.as_bytes().to_vec());
    let mut keyed = health_ping();
    keyed.key = b"k".to_vec();
    let resp = sendrecv(&mut pool, &mut net, &keyed, 1).unwrap();
    assert_eq!(resp.lease, REC_UOPC.as_bytes().to_vec());
    assert!(pool.is_connected(HOST, PORT));
}

#[test]
fn test_health_check_failure() {
    let (mut pool, mut net) = (ConnectionPool::new(), Net::new());
    net.reachable = false;
    match sendrecv(&mut pool, &mut net, &health_ping(), 1) {
        Err(ZhtError::ConnectionFailed { host, port, reason }) => {
            assert_eq!((host.as_str(), port, reason.as_str()), (HOST, PORT, "Connection refused"));
        }
        other => panic!("expected a failed connection, got {:?}", other),
    }
    assert_eq!(pool.connection_count(), 0);
}

#[test]
fn test_auto_reconnect_after_server_restart() {
    let (mut pool, mut net) = (ConnectionPool::new(), Net::new());
    let req = make_zpack(OPC_INSERT, "reconnect_key", "reconnect_val");
    let resp = sendrecv(&mut pool, &mut net, &req, 1).unwrap();
    assert_eq!(resp.lease, REC_SUCC.as_bytes().to_vec());
    assert!(pool.is_connected(HOST, PORT));

    // The server is another one now, and the old connection is stale.
    net.worker = HTWorker::new(NoVoHT::new());
    net.send_faults = vec![ZhtError::SendFailed("Broken pipe (os error 32)".to_string())];
    let resp = sendrecv(&mut pool, &mut net, &make_zpack(OPC_INSERT, "new_server_key", "new_server_val"), 2).unwrap();
    assert_eq!(resp.lease, REC_SUCC.as_bytes().to_vec());
    assert_eq!(net.connects, 2);

    let resp = sendrecv(&mut pool, &mut net, &make_zpack(OPC_LOOKUP, "new_server_key", ""), 3).unwrap();
    assert_eq!(resp.val, b"new_server_val".to_vec());
    let stats = pool.stats(HOST, PORT).unwrap();
    assert!(stats.messages_sent >= 1);
    assert!(stats.messages_received >= 1);
    // The statistics belong to the new connection alone.
    assert_eq!((stats.messages_sent, stats.messages_received, stats.errors), (2, 2, 0));
}

#[test]
fn broken_connection_is_retried_once() {
    let (mut pool, mut net) = (ConnectionPool::new(), Net::new());
    net.receive_faults = vec![
        ZhtError::RecvFailed("Connection reset by peer".to_string()),
        ZhtError::RecvFailed("unexpected EOF during read".to_string()),
    ];
    let result = sendrecv(&mut pool, &mut net, &make_zpack(OPC_LOOKUP, "k", ""), 1);
    assert_eq!(result.unwrap_err().to_string(), "receive failed: Connection reset by peer");
    assert_eq!(net.connects, 2);
    assert!(!pool.is_connected(HOST, PORT));
}

#[test]
fn other_error_keeps_connection_and_counts() {
    let (mut pool, mut net) = (ConnectionPool::new(), Net::new());
    net.receive_faults = vec![ZhtError::ProtobufDecodeError("invalid varint".to_string())];
    let result = sendrecv(&mut pool, &mut net, &make_zpack(OPC_LOOKUP, "k", ""), 1);
    assert!(matches!(result, Err(ZhtError::ProtobufDecodeError(_))));
    assert_eq!(net.connects, 1);
    let stats = pool.stats(HOST, PORT).unwrap();
    assert_eq!((stats.errors, stats.messages_sent, stats.messages_received), (1, 1, 0));
}

#[test]
fn other_connections_stay_as_they_are() {
    let (mut pool, mut net) = (ConnectionPool::new(), Net::new());
    let req = make_zpack(OPC_INSERT, "k", "v");
    sendrecv(&mut pool, &mut net, &req, 5).unwrap();
    let before = pool.stats(HOST, PORT).unwrap();
    let mut elsewhere = Exchange::send_only("10.0.0.1", 7, &req);
    assert_eq!(elsewhere.addr(), "10.0.0.1:7");
    assert!(drive(&mut pool, &mut net, &mut elsewhere, &req, 9).unwrap().is_none());
    assert_eq!(pool.connection_count(), 2);
    let after = pool.stats(HOST, PORT).unwrap();
    assert_eq!(format!("{:?}", before), format!("{:?}", after));
    assert_eq!(pool.stats("10.0.0.1", 7).unwrap().messages_received, 0);
    pool.close_all();
    assert_eq!(pool.connection_count(), 0);
}

#[test]
fn sending_without_a_connection_is_an_internal_error() {
    let mut pool = ConnectionPool::new();
    let req = make_zpack(OPC_INSERT, "k", "v");
    let mut exchange = Exchange::sendrecv(HOST, PORT, &req);
    match exchange.on_event(&mut pool, ExchangeEvent::Sent, 1) {
        ExchangeStep::Done(Err(e)) => assert_eq!(e.to_string(), "connection vanished from pool"),
        other => panic!("unexpected step {:?}", other),
    }
}

#[test]
fn words_of_broken_connections() {
    for words in ["Broken Pipe", "CONNECTION RESET by peer", "early unexpected EOF", "connection aborted"] {
        assert!(is_connection_broken_error(&ZhtError::SendFailed(words.to_string())));
        assert!(is_connection_broken_error(&ZhtError::RecvFailed(words.to_string())));
        assert!(!is_connection_broken_error(&ZhtError::Internal(words.to_string())));
    }
    assert!(!is_connection_broken_error(&ZhtError::SendFailed("timed out".to_string())));
    assert!(!is_connection_broken_error(&ZhtError::SendFailed("broken  pipe".to_string())));
    // Letters outside ASCII are put in lower case as well.
    assert!(is_connection_broken_error(&ZhtError::SendFailed("ÄÖ BROKEN PIPE".to_string())));
}

#[test]
fn fresh_statistics() {
    let stats = ConnectionStats::new(77);
    assert_eq!(stats.last_activity, 77);
    assert_eq!(stats.messages_sent + stats.messages_received + stats.bytes_sent + stats.bytes_received + stats.errors, 0);
}

#[test]
fn pool_count_follows_events() {
    let (mut pool, mut net) = (ConnectionPool::new(), Net::new());
    let req = make_zpack(OPC_LOOKUP, "k", "");
    sendrecv(&mut pool, &mut net, &req, 1).unwrap();
    sendrecv(&mut pool, &mut net, &req, 2).unwrap();
    assert_eq!(pool.connection_count(), 1);
    let mut x = Exchange::send_only("10.0.0.1", 7, &req);
    let _ = x.on_event(&mut pool, ExchangeEvent::Connected, 3);
    assert_eq!(pool.connection_count(), 2);
    let _ = x.on_event(&mut pool, ExchangeEvent::SendFailed(ZhtError::SendFailed("odd".to_string())), 4);
    assert_eq!(pool.connection_count(), 2);
    let _ = x.on_event(&mut pool, ExchangeEvent::SendFailed(ZhtError::SendFailed("broken pipe".to_string())), 5);
    assert_eq!(pool.connection_count(), 1);
}
