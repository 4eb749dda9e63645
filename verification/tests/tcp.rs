use zht::connection::{ExchangeEvent, ExchangeStep};
use zht::constants::{OPC_INSERT, OPC_LOOKUP, REC_SUCC};
use zht::error::{ZhtError, ZhtResult};
use zht::metrics::TransportMetrics;
use zht::novoht::NoVoHT;
use zht::tcp::{PooledConn, TcpProxy, TcpServer, MAX_IDLE_NANOS, MAX_OPS};
use zht::transport::RequestHandler;
use zht::worker::HTWorker;
use zht::zpack::ZPack;

fn zp(op: &str, k: &str, v: &str) -> ZPack {
    let mut z = ZPack::default();
    z.opcode = op.as_bytes().to_vec();
    z.key = k.as_bytes().to_vec();
    z.val = v.as_bytes().to_vec();
    z
}

struct Locked(std::sync::Mutex<HTWorker>);

impl RequestHandler for Locked {
    fn handle(&self, request: &ZPack) -> ZPack {
        self.0.lock().unwrap().process(request).response().unwrap()
    }
}

fn handler() -> Locked {
    Locked(std::sync::Mutex::new(HTWorker::new(NoVoHT::new())))
}

fn sendrecv(
    proxy: &mut TcpProxy,
    server: &mut TcpServer,
    handler: &Locked,
    request: &ZPack,
    now: u64,
) -> ZhtResult<ZPack> {
    let mut event = ExchangeEvent::Started;
    loop {
        event = match proxy.on_event("127.0.0.1", 4000, true, event, now) {
            ExchangeStep::Connect => {
                server.on_accepted();
                ExchangeEvent::Connected
            }
            ExchangeStep::Send => ExchangeEvent::Sent,
            ExchangeStep::Receive => ExchangeEvent::Received(server.handle(handler, request)),
            ExchangeStep::Done(result) => return result.map(|r| r.unwrap()),
        };
    }
}

#[test]
fn test_proxy_new() {
    let p = TcpProxy::new();
    assert_eq!(p.protocol_name(), "TCP");
    assert_eq!(p.connection_count(), 0);
}

#[test]
fn test_integration() {
    let (mut proxy, mut server, h) = (TcpProxy::new(), TcpServer::new(), handler());
    let r = sendrecv(&mut proxy, &mut server, &h, &zp(OPC_INSERT, "k", "v"), 1).unwrap();
    assert_eq!(r.lease, REC_SUCC.as_bytes().to_vec());
    let r = sendrecv(&mut proxy, &mut server, &h, &zp(OPC_LOOKUP, "k", ""), 2).unwrap();
    assert_eq!(r.val, b"v".to_vec());
    assert_eq!(proxy.connection_count(), 1);
    let sent = proxy.metrics().snapshot();
    assert_eq!((sent.messages_sent, sent.messages_received), (2, 2));
    assert_eq!((sent.active_connections, sent.connections_opened), (1, 1));
    let served = server.metrics().snapshot();
    assert_eq!((served.connections_accepted, served.requests_processed), (1, 2));
}

#[test]
fn test_close() {
    let mut p = TcpProxy::new();
    p.close_connection("x", 1);
    p.close_all();
    assert_eq!(p.connection_count(), 0);
    assert_eq!(p.metrics().snapshot().connections_closed, 0);
}

#[test]
fn idle_connection_is_replaced() {
    let (mut proxy, mut server, h) = (TcpProxy::new(), TcpServer::new(), handler());
    sendrecv(&mut proxy, &mut server, &h, &zp(OPC_INSERT, "k", "v"), 0).unwrap();
    // Idle for exactly the limit: still used.
    sendrecv(&mut proxy, &mut server, &h, &zp(OPC_LOOKUP, "k", ""), MAX_IDLE_NANOS).unwrap();
    assert_eq!(proxy.metrics().snapshot().reconnections, 0);
    sendrecv(&mut proxy, &mut server, &h, &zp(OPC_LOOKUP, "k", ""), 2 * MAX_IDLE_NANOS + 1).unwrap();
    let s = proxy.metrics().snapshot();
    assert_eq!((s.reconnections, s.active_connections), (1, 1));
    assert_eq!((s.connections_opened, s.connections_closed), (2, 1));
    assert_eq!(proxy.connection_count(), 1);
}

#[test]
fn connection_wears_out() {
    let mut conn = PooledConn::new(5);
    assert!(!conn.needs_recycling(5));
    conn.ops = MAX_OPS - 1;
    assert!(!conn.needs_recycling(5));
    conn.touch(9);
    assert_eq!((conn.ops, conn.last_used), (MAX_OPS, 9));
    assert!(conn.needs_recycling(9));
    // A clock that stands before the last use makes no connection idle.
    assert!(!PooledConn::new(100).needs_recycling(1));
}

#[test]
fn failed_exchange_drops_connection() {
    let mut proxy = TcpProxy::new();
    assert!(matches!(proxy.on_event("h", 1, true, ExchangeEvent::Started, 0), ExchangeStep::Connect));
    assert!(matches!(proxy.on_event("h", 1, true, ExchangeEvent::Connected, 0), ExchangeStep::Send));
    let failed = ExchangeEvent::SendFailed(ZhtError::SendFailed("gone".to_string()));
    match proxy.on_event("h", 1, true, failed, 0) {
        ExchangeStep::Done(Err(e)) => assert_eq!(e.to_string(), "send failed: gone"),
        other => panic!("unexpected step {:?}", other),
    }
    let s = proxy.metrics().snapshot();
    assert_eq!((s.send_errors, s.connections_closed, s.active_connections), (1, 1, 0));
    assert_eq!(proxy.connection_count(), 0);

    assert!(matches!(proxy.on_event("h", 1, true, ExchangeEvent::Connected, 0), ExchangeStep::Send));
    assert!(matches!(proxy.on_event("h", 1, true, ExchangeEvent::Sent, 0), ExchangeStep::Receive));
    let failed = ExchangeEvent::ReceiveFailed(ZhtError::RecvFailed("gone".to_string()));
    assert!(matches!(proxy.on_event("h", 1, true, failed, 0), ExchangeStep::Done(Err(_))));
    assert_eq!(proxy.metrics().snapshot().recv_errors, 1);
    assert_eq!(proxy.connection_count(), 0);
}

#[test]
fn one_way_failure_keeps_connection() {
    let mut proxy = TcpProxy::new();
    let _ = proxy.on_event("h", 1, false, ExchangeEvent::Connected, 0);
    let failed = ExchangeEvent::SendFailed(ZhtError::SendFailed("gone".to_string()));
    assert!(matches!(proxy.on_event("h", 1, false, failed, 0), ExchangeStep::Done(Err(_))));
    assert_eq!(proxy.connection_count(), 1);
    assert_eq!(proxy.metrics().snapshot().send_errors, 0);
    assert!(matches!(proxy.on_event("h", 1, false, ExchangeEvent::Sent, 0), ExchangeStep::Done(Ok(None))));
    assert_eq!(proxy.metrics().snapshot().messages_sent, 1);
}

#[test]
fn closing_all_counts_each_connection() {
    let mut proxy = TcpProxy::with_metrics(TransportMetrics::new());
    let _ = proxy.on_event("a", 1, true, ExchangeEvent::Connected, 0);
    let _ = proxy.on_event("b", 2, true, ExchangeEvent::Connected, 0);
    proxy.close_connection("a", 1);
    assert_eq!(proxy.connection_count(), 1);
    let _ = proxy.on_event("c", 3, true, ExchangeEvent::Connected, 0);
    proxy.close_all();
    let s = proxy.metrics().snapshot();
    assert_eq!((s.connections_opened, s.connections_closed, s.active_connections), (3, 3, 0));
}

#[test]
fn unreachable_node() {
    let mut proxy = TcpProxy::new();
    match proxy.on_event("h", 9, true, ExchangeEvent::ConnectFailed("refused".to_string()), 0) {
        ExchangeStep::Done(Err(e)) => assert_eq!(e.to_string(), "connection failed to h:9: refused"),
        other => panic!("unexpected step {:?}", other),
    }
}

#[test]
fn server_counts_failed_responses() {
    let mut server = TcpServer::default();
    server.on_send_failed();
    assert_eq!(server.metrics().snapshot().send_errors, 1);
}

#[test]
fn proxy_stays_balanced() {
    let mut proxy = TcpProxy::new();
    for round in 0..60u64 {
        let port = (round % 3) as u16;
        let event = match round % 5 {
            0 | 1 => ExchangeEvent::Connected,
            2 => ExchangeEvent::Started,
            3 => ExchangeEvent::SendFailed(ZhtError::EmptyKey),
            _ => ExchangeEvent::Sent,
        };
        let _ = proxy.on_event("n", port, true, event, round * MAX_IDLE_NANOS);
        if round % 17 == 0 {
            proxy.close_connection("n", port);
        }
        if round % 29 == 0 {
            proxy.close_all();
        }
        let s = proxy.metrics().snapshot();
        assert_eq!(s.active_connections, s.connections_opened.wrapping_sub(s.connections_closed));
    }
    assert!(proxy.metrics().snapshot().connections_closed > 0);
}

#[test]
fn connection_count_follows_calls() {
    let mut proxy = TcpProxy::new();
    let failed = || ExchangeEvent::SendFailed(ZhtError::SendFailed("gone".to_string()));
    let _ = proxy.on_event("a", 1, true, ExchangeEvent::Connected, 0);
    let _ = proxy.on_event("a", 1, true, ExchangeEvent::Connected, 1);
    assert_eq!(proxy.connection_count(), 1);
    let _ = proxy.on_event("b", 2, true, ExchangeEvent::Connected, 2);
    assert_eq!(proxy.connection_count(), 2);
    let _ = proxy.on_event("a", 1, false, failed(), 3);
    assert_eq!(proxy.connection_count(), 2);
    let _ = proxy.on_event("a", 1, true, failed(), 4);
    let _ = proxy.on_event("a", 1, true, failed(), 5);
    assert_eq!(proxy.connection_count(), 1);
    proxy.close_connection("c", 3);
    assert_eq!(proxy.connection_count(), 1);
    proxy.close_connection("b", 2);
    assert_eq!(proxy.connection_count(), 0);
}
