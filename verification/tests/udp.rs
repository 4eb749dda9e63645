use zht::chunking::{ChunkReceiver, CHUNK_HEADER_SIZE, CHUNK_PAYLOAD_SIZE, DEFAULT_CHUNK_THRESHOLD};
use zht::config::{FileContents, ZhtConfig};
use zht::constants::{OPC_INSERT, OPC_LOOKUP, REC_SUCC};
use zht::framing::encode_message;
use zht::metrics::TransportMetrics;
use zht::novoht::NoVoHT;
use zht::udp::{chunk_threshold, UdpProxy, UdpServer};
use zht::worker::HTWorker;
use zht::zpack::ZPack;

fn make_zpack(opcode: &str, key: &str, val: &str) -> ZPack {
    let mut z = ZPack::default();
    z.opcode = opcode.as_bytes().to_vec();
    z.key = key.as_bytes().to_vec();
    z.val = val.as_bytes().to_vec();
    z
}

struct Node {
    server: UdpServer,
    chunks: ChunkReceiver,
    worker: HTWorker,
}

impl Node {
    fn new() -> Node {
        Node { server: UdpServer::new(), chunks: ChunkReceiver::new(), worker: HTWorker::new(NoVoHT::new()) }
    }

    /// The datagram that answers the given one, if any.
    fn answer(&mut self, datagram: &[u8]) -> Option<Vec<u8>> {
        let request = self.server.on_datagram(&mut self.chunks, datagram)?;
        let response = self.worker.process(&request).response().unwrap();
        let frame = encode_message(&response);
        self.server.on_response_sent(frame.len() as u64);
        Some(frame)
    }
}

fn sendrecv(proxy: &mut UdpProxy, node: &mut Node, request: &ZPack) -> Option<ZPack> {
    let mut outgoing = proxy.sendrecv(request);
    let mut reply = None;
    loop {
        let datagram = match outgoing.next_datagram() {
            Some(d) => d.clone(),
            None => break,
        };
        proxy.on_sent(&mut outgoing);
        if let Some(frame) = node.answer(&datagram) {
            reply = Some(frame);
        }
    }
    reply.map(|frame| proxy.on_reply(&frame).unwrap())
}

#[test]
fn test_udp_proxy_creation() {
    let p = UdpProxy::new();
    assert_eq!(p.protocol_name(), "UDP");
    assert_eq!(p.connection_count(), 0);
}

#[test]
fn test_udp_roundtrip() {
    let (mut proxy, mut node) = (UdpProxy::new(), Node::new());
    let resp = sendrecv(&mut proxy, &mut node, &make_zpack(OPC_INSERT, "uk", "uv")).unwrap();
    assert_eq!(resp.lease, REC_SUCC.as_bytes().to_vec());
    let resp = sendrecv(&mut proxy, &mut node, &make_zpack(OPC_LOOKUP, "uk", "")).unwrap();
    assert_eq!(resp.val, b"uv".to_vec());
    let snap = proxy.metrics().snapshot();
    assert_eq!(snap.messages_sent, 2);
    assert_eq!(snap.messages_received, 2);
    // 4 + (2 + 3) + (2 + 2) + (2 + 2), then 4 + (2 + 3) + (2 + 2)
    assert_eq!(snap.bytes_sent, 17 + 13);
    let served = node.server.metrics().snapshot();
    assert_eq!(served.bytes_received, 30);
    assert_eq!(served.bytes_sent, snap.bytes_received);
    assert_eq!(served.requests_processed, 2);
}

#[test]
fn test_udp_multiple_clients() {
    let mut node = Node::new();
    for i in 0..5 {
        let mut proxy = UdpProxy::new();
        let req = make_zpack(OPC_INSERT, &format!("mu_{}", i), &format!("mv_{}", i));
        let resp = sendrecv(&mut proxy, &mut node, &req).unwrap();
        assert_eq!(resp.lease, REC_SUCC.as_bytes().to_vec());
    }
    assert_eq!(node.worker.store().len(), 5);
}

#[test]
fn test_udp_fire_and_forget() {
    let mut proxy = UdpProxy::default();
    let mut outgoing = proxy.send_only(&make_zpack(OPC_INSERT, "ff", "v"));
    assert!(outgoing.next_datagram().is_some());
    proxy.on_sent(&mut outgoing);
    assert!(outgoing.next_datagram().is_none());
    let snap = proxy.metrics().snapshot();
    assert_eq!(snap.messages_sent, 1);
    assert_eq!(snap.messages_received, 0);
}

#[test]
fn large_request_travels_in_chunks() {
    let mut proxy = UdpProxy::with_metrics(TransportMetrics::new());
    let request = make_zpack(OPC_INSERT, "big", &"x".repeat(DEFAULT_CHUNK_THRESHOLD));
    let data = request.encode_to_vec();
    let total = (data.len() + CHUNK_PAYLOAD_SIZE - 1) / CHUNK_PAYLOAD_SIZE;
    let mut outgoing = proxy.sendrecv(&request);
    let mut receiver = ChunkReceiver::new();
    let mut whole = None;
    let mut count = 0;
    while let Some(d) = outgoing.next_datagram() {
        let d = d.clone();
        whole = receiver.receive(&d).unwrap();
        count += 1;
        assert_eq!(proxy.metrics().snapshot().messages_sent, 0);
        proxy.on_sent(&mut outgoing);
    }
    assert_eq!(count, total);
    assert_eq!(whole.unwrap(), data);
    let snap = proxy.metrics().snapshot();
    assert_eq!((snap.messages_sent, snap.chunks_sent), (1, total as u64));
    assert_eq!(snap.bytes_sent, (data.len() + total * CHUNK_HEADER_SIZE) as u64);
    assert_eq!(proxy.on_timeout(&outgoing).to_string(), "receive failed: UDP timeout (chunked)");
}

#[test]
fn chunked_request_is_served() {
    let mut node = Node::new();
    let mut proxy = UdpProxy::new().with_chunk_threshold(1000);
    let value = "x".repeat(2000);
    let reply = sendrecv(&mut proxy, &mut node, &make_zpack(OPC_INSERT, "big", &value)).unwrap();
    assert_eq!(reply.lease, REC_SUCC.as_bytes());
    assert_eq!(node.worker.store().get("big").unwrap(), value);
    assert_eq!(proxy.metrics().snapshot().chunks_sent, 4);
    assert_eq!(node.server.metrics().snapshot().requests_processed, 1);
    assert_eq!(node.chunks.inflight_count(), 0);
}

#[test]
fn chunked_requests_mix_with_others() {
    let mut node = Node::new();
    let bytes = make_zpack(OPC_INSERT, "big", &"y".repeat(1000)).encode_to_vec();
    let chunks = zht::chunking::chunk_message_with_id(3, &bytes, CHUNK_PAYLOAD_SIZE);
    assert_eq!(chunks.len(), 2);
    assert!(node.answer(&chunks[1].data).is_none());
    assert!(node.answer(&encode_message(&make_zpack(OPC_INSERT, "k", "v"))).is_some());
    assert!(node.answer(&zht::chunking::chunk_message_with_id(4, &bytes, 600)[0].data).is_none());
    assert!(node.answer(&chunks[0].data).is_some());
    assert_eq!(node.worker.store().get("big").unwrap(), "y".repeat(1000));
    assert_eq!(node.chunks.inflight_count(), 1);
    // Reassembled bytes that are no message bring no request.
    assert!(node.answer(&zht::chunking::chunk_message_with_id(5, b"noise", 9)[0].data).is_none());
    assert_eq!(node.server.metrics().snapshot().requests_processed, 2);
}

#[test]
fn message_at_the_threshold_is_framed() {
    let proxy = UdpProxy::new();
    // 5 for the opcode, 3 for the key, 4 for the head of the value
    let request = make_zpack(OPC_INSERT, "k", &"x".repeat(DEFAULT_CHUNK_THRESHOLD - 12));
    assert_eq!(request.encoded_len(), DEFAULT_CHUNK_THRESHOLD);
    let outgoing = proxy.sendrecv(&request);
    assert_eq!(outgoing.next_datagram().unwrap().len(), DEFAULT_CHUNK_THRESHOLD + 4);
}

#[test]
fn failed_receptions() {
    let mut proxy = UdpProxy::new();
    let outgoing = proxy.send_only(&make_zpack(OPC_LOOKUP, "k", ""));
    assert_eq!(proxy.on_timeout(&outgoing).to_string(), "receive failed: UDP timeout");
    assert_eq!(proxy.on_receive_failed("no route".to_string()).to_string(), "receive failed: no route");
    assert_eq!(proxy.metrics().snapshot().recv_errors, 2);
    let error = proxy.on_reply(&[0, 0, 0]).unwrap_err();
    assert_eq!(
        error.to_string(),
        "receive failed: Message too short: need at least 4 bytes for length prefix",
    );
    assert_eq!(proxy.metrics().snapshot().messages_received, 1);
    let error = proxy.on_reply(&[0, 0, 0, 9, 1]).unwrap_err();
    assert_eq!(error.to_string(), "receive failed: Incomplete message: expected 13 bytes, got 5");
    assert!(proxy.on_reply(&[0, 0, 0, 1, 0xff]).unwrap_err().to_string().starts_with("protobuf deserialization failed: "));
}

#[test]
fn server_ignores_what_is_no_message() {
    let mut node = Node::new();
    assert!(node.answer(b"noise").is_none());
    assert_eq!(node.server.metrics().snapshot().bytes_received, 5);
    assert_eq!(node.server.metrics().snapshot().requests_processed, 0);
    node.server.on_send_failed();
    node.server.on_receive_failed();
    let s = node.server.metrics().snapshot();
    assert_eq!((s.send_errors, s.recv_errors), (1, 1));
    assert_eq!(node.server.protocol_name(), "UDP");
}

#[test]
fn server_assembles_a_framed_message_from_chunks() {
    let mut node = Node::new();
    let frame = encode_message(&make_zpack(OPC_INSERT, "ck", "cv"));
    let chunks = zht::chunking::chunk_message_with_id(9, &frame, 8);
    assert_eq!(chunks.len(), 3);
    assert!(node.answer(&chunks[2].data).is_none());
    assert!(node.answer(&chunks[0].data).is_none());
    assert!(node.answer(&chunks[1].data).is_some());
    assert_eq!(node.worker.store().get("ck").unwrap(), "cv");
    assert_eq!(node.chunks.inflight_count(), 0);
}

#[test]
fn threshold_from_the_configuration() {
    let load = |text: &str| ZhtConfig::load("z", FileContents::Text(text.to_string())).unwrap();
    assert_eq!(chunk_threshold(&load("")), DEFAULT_CHUNK_THRESHOLD);
    assert_eq!(chunk_threshold(&load("MSG_MAXSIZE 20\n")), 20);
    let proxy = UdpProxy::new().with_chunk_threshold(20);
    // 5 for the opcode, 3 for the key, 12 for the value
    let at = make_zpack(OPC_INSERT, "k", "0123456789");
    assert_eq!(proxy.sendrecv(&at).next_datagram().unwrap().len(), 24);
    let beyond = make_zpack(OPC_INSERT, "k", "0123456789x");
    assert_eq!(proxy.sendrecv(&beyond).next_datagram().unwrap().len(), CHUNK_HEADER_SIZE + 21);
}

#[test]
fn receiver_keeps_its_counters() {
    let mut server = UdpServer::new();
    let mut chunks = ChunkReceiver::new().with_metrics(TransportMetrics::new());
    let frame = encode_message(&make_zpack(OPC_INSERT, "k", "v"));
    let parts = zht::chunking::chunk_message_with_id(9, &frame, 8);
    assert!(server.on_datagram(&mut chunks, &parts[0].data).is_none());
    assert_eq!(chunks.metrics().unwrap().chunks_received, 1);
    assert!(server.on_datagram(&mut chunks, &frame).is_some());
    assert!(server.on_datagram(&mut chunks, b"noise").is_none());
    assert_eq!(chunks.metrics().unwrap().chunks_received, 1);
    assert!(server.on_datagram(&mut chunks, &parts[1].data).is_some());
    assert_eq!(chunks.metrics().unwrap().chunks_received, 2);
}
