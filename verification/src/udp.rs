//! UDP transport.
//!
//! A message that is not too large travels as one framed datagram; a larger one
//! travels in chunks, one to a datagram.

use crate::chunking::{
    chunk_bytes, chunk_counted, chunk_message, chunks_at, is_chunkable, is_own, law_chunks_deliver_among_others,
    law_chunks_deliver_message, law_header_has_fixed_size, lemma_chunk_first_byte, lemma_pieces,
    own_chunks, parsed_chunk, piece, piece_count, received, received_all, Assembly, ChunkReceiver,
    CHUNK_PAYLOAD_SIZE, DEFAULT_CHUNK_THRESHOLD,
};
use crate::config::{parameter_or, ZhtConfig};
use crate::constants::CONF_MSG_MAXSIZE;
use crate::error::{ErrorView, ZhtError, ZhtResult};
use crate::framing::{
    decode_message, decode_payload, encode_message, frame, is_message_error, law_message_round_trip,
    lemma_no_frame, message_of,
};
use crate::id_helper::id_from;
use crate::metrics::{zero_snapshot, MetricsSnapshot, TransportMetrics};
use crate::zpack::{is_sendable, law_zpack_round_trip, zpack_bytes, zpack_of, ZPack, ZPackView};
use vstd::prelude::*;

verus! {

/// The largest payload of a datagram.
pub const UDP_MAX_DATAGRAM: usize = 65_507;

/// How long a response is awaited, in milliseconds.
pub const UDP_RECV_TIMEOUT_MS: u64 = 5000;

// ── Requests ────────────────────────────────────────────────────────────

/// The datagrams of a message that travels in chunks under an id.
pub open spec fn chunk_datagrams(id: u64, data: Seq<u8>) -> Seq<Seq<u8>> {
    let size = CHUNK_PAYLOAD_SIZE as nat;
    let total = piece_count(data.len(), size);
    Seq::new(total, |i: int| chunk_bytes(id as nat, i as nat, total, piece(data, size, i as nat)))
}

/// The views of the datagrams of a vector.
pub open spec fn datagram_views(v: Seq<Vec<u8>>) -> Seq<Seq<u8>> {
    v.map_values(|d: Vec<u8>| d@)
}

/// A request on its way: the datagrams, and how many of them were sent.
#[derive(Debug)]
pub struct UdpRequest {
    datagrams: Vec<Vec<u8>>,
    position: usize,
    chunked: bool,
}

impl UdpRequest {
    /// No more datagrams were sent than there are.
    pub closed spec fn wf(&self) -> bool {
        self.position <= self.datagrams@.len()
    }

    /// All datagrams.
    pub closed spec fn all(&self) -> Seq<Seq<u8>> {
        datagram_views(self.datagrams@)
    }

    /// How many datagrams were sent.
    pub closed spec fn done(&self) -> nat {
        self.position as nat
    }

    /// Whether the message travels in chunks.
    pub closed spec fn in_chunks(&self) -> bool {
        self.chunked
    }

    /// A request that travels as one framed datagram.
    pub fn framed(request: &ZPack) -> (r: UdpRequest)
        ensures
            r.wf(),
            r.done() == 0,
            !r.in_chunks(),
            r.all() == seq![frame(zpack_bytes(request@))],
    {
        let mut datagrams: Vec<Vec<u8>> = Vec::new();
        datagrams.push(encode_message(request));
        let r = UdpRequest { datagrams, position: 0, chunked: false };
        assert(r.all() =~= seq![frame(zpack_bytes(request@))]);
        r
    }

    /// A request that travels in chunks, given its encoding.
    pub fn chunked(data: &Vec<u8>) -> (r: UdpRequest)
        ensures
            r.wf(),
            r.done() == 0,
            r.in_chunks(),
            exists|seed: u64|
                r.all() == chunk_datagrams(#[trigger] id_from(seed) as u64, data@),
    {
        let (id, chunks) = chunk_message(data, CHUNK_PAYLOAD_SIZE);
        let ghost expected = chunk_datagrams(id, data@);
        let mut datagrams: Vec<Vec<u8>> = Vec::new();
        for i in 0..chunks.len()
            invariant
                expected == chunk_datagrams(id, data@),
                chunks@.len() == piece_count(data@.len(), CHUNK_PAYLOAD_SIZE as nat),
                forall|j: int|
                    0 <= j < chunks@.len() ==> (#[trigger] chunks@[j]).is_piece(
                        id,
                        data@,
                        CHUNK_PAYLOAD_SIZE as nat,
                        j as nat,
                    ),
                datagram_views(datagrams@) == expected.take(i as int),
        {
            let bytes = chunks[i].clone().data;
            assert(chunks@[i as int].is_piece(id, data@, CHUNK_PAYLOAD_SIZE as nat, i as nat));
            assert(bytes@ == expected[i as int]);
            assert(datagram_views(datagrams@.push(bytes)) =~= datagram_views(datagrams@).push(
                bytes@,
            ));
            datagrams.push(bytes);
            assert(datagram_views(datagrams@) =~= expected.take(i + 1));
        }
        assert(expected.take(expected.len() as int) =~= expected);
        proof {
            let seed = choose|seed: u64| id == #[trigger] id_from(seed);
            assert(id_from(seed) as u64 == id);
        }
        UdpRequest { datagrams, position: 0, chunked: true }
    }

    /// The datagram that is to be sent next.
    pub fn next_datagram(&self) -> (r: Option<&Vec<u8>>)
        requires
            self.wf(),
        ensures
            r is Some <==> self.done() < self.all().len(),
            r matches Some(d) ==> d@ == self.all()[self.done() as int],
    {
        if self.position < self.datagrams.len() {
            Some(&self.datagrams[self.position])
        } else {
            None
        }
    }
}

// ── The proxy ───────────────────────────────────────────────────────────

/// The counters after the datagram of a request was sent.
pub open spec fn after_datagram(s: MetricsSnapshot, len: nat, in_chunks: bool, last: bool) -> MetricsSnapshot {
    MetricsSnapshot {
        bytes_sent: s.bytes_sent.wrapping_add(len as u64),
        chunks_sent: if in_chunks {
            s.chunks_sent.wrapping_add(1)
        } else {
            s.chunks_sent
        },
        messages_sent: if last {
            s.messages_sent.wrapping_add(1)
        } else {
            s.messages_sent
        },
        ..s
    }
}

/// The counters after a datagram of `len` bytes came back.
pub open spec fn after_reply(s: MetricsSnapshot, len: nat) -> MetricsSnapshot {
    MetricsSnapshot {
        bytes_received: s.bytes_received.wrapping_add(len as u64),
        messages_received: s.messages_received.wrapping_add(1),
        ..s
    }
}

/// The counters after nothing could be received.
pub open spec fn after_receive_error(s: MetricsSnapshot) -> MetricsSnapshot {
    MetricsSnapshot { recv_errors: s.recv_errors.wrapping_add(1), ..s }
}

/// The size of an encoded message beyond which it travels in chunks: that of
/// the parameter for the message size where it is set and can be read, or else
/// the default threshold.
pub fn chunk_threshold(config: &ZhtConfig) -> (r: usize)
    requires
        config.wf(),
    ensures
        r == parameter_or::<usize>(config@, CONF_MSG_MAXSIZE@, DEFAULT_CHUNK_THRESHOLD),
{
    config.get_parsed(CONF_MSG_MAXSIZE, DEFAULT_CHUNK_THRESHOLD)
}

/// UDP client proxy for sending requests to ZHT server nodes.
#[derive(Debug)]
pub struct UdpProxy {
    metrics: TransportMetrics,
    threshold: usize,
}

impl View for UdpProxy {
    type V = MetricsSnapshot;

    closed spec fn view(&self) -> MetricsSnapshot {
        self.metrics@
    }
}

impl UdpProxy {
    /// The size of an encoded message beyond which it travels in chunks.
    pub closed spec fn limit(&self) -> usize {
        self.threshold
    }

    /// Create a proxy.
    pub fn new() -> (r: UdpProxy)
        ensures
            r@ == zero_snapshot(),
            r.limit() == DEFAULT_CHUNK_THRESHOLD,
    {
        UdpProxy::with_metrics(TransportMetrics::new())
    }

    /// Create a proxy with the given metrics.
    pub fn with_metrics(metrics: TransportMetrics) -> (r: UdpProxy)
        ensures
            r@ == metrics@,
            r.limit() == DEFAULT_CHUNK_THRESHOLD,
    {
        UdpProxy { metrics, threshold: DEFAULT_CHUNK_THRESHOLD }
    }

    /// The proxy with another threshold in place of the default one.
    pub fn with_chunk_threshold(self, threshold: usize) -> (r: UdpProxy)
        ensures
            r@ == self@,
            r.limit() == threshold,
    {
        UdpProxy { metrics: self.metrics, threshold }
    }

    /// Starts a request that waits for a response: in chunks where the encoded
    /// message is larger than the threshold, else as one framed datagram.
    pub fn sendrecv(&self, request: &ZPack) -> (r: UdpRequest)
        ensures
            r.wf(),
            r.done() == 0,
            r.in_chunks() == (zpack_bytes(request@).len() > self.limit()),
            !r.in_chunks() ==> r.all() == seq![frame(zpack_bytes(request@))],
            r.in_chunks() ==> exists|seed: u64|
                r.all() == chunk_datagrams(#[trigger] id_from(seed) as u64, zpack_bytes(request@)),
    {
        let data = request.encode_to_vec();
        if data.len() > self.threshold {
            UdpRequest::chunked(&data)
        } else {
            UdpRequest::framed(request)
        }
    }

    /// Starts a request that waits for no response: one framed datagram.
    pub fn send_only(&self, request: &ZPack) -> (r: UdpRequest)
        ensures
            r.wf(),
            r.done() == 0,
            !r.in_chunks(),
            r.all() == seq![frame(zpack_bytes(request@))],
    {
        UdpRequest::framed(request)
    }

    /// Counts the datagram that was sent, and goes on to the next one.
    pub fn on_sent(&mut self, request: &mut UdpRequest)
        requires
            old(request).wf(),
            old(request).done() < old(request).all().len(),
        ensures
            final(request).wf(),
            final(request).all() == old(request).all(),
            final(request).in_chunks() == old(request).in_chunks(),
            final(request).done() == old(request).done() + 1,
            final(self).limit() == old(self).limit(),
            final(self)@ == after_datagram(
                old(self)@,
                old(request).all()[old(request).done() as int].len(),
                old(request).in_chunks(),
                old(request).done() + 1 == old(request).all().len(),
            ),
    {
        let total: usize = request.datagrams.len();
        let len: u64 = request.datagrams[request.position].len() as u64;
        self.metrics.add_bytes_sent(len);
        if request.chunked {
            self.metrics.inc_chunks_sent();
        }
        request.position += 1;
        if request.position == total {
            self.metrics.inc_messages_sent();
        }
    }

    /// Takes in the datagram that came back.
    pub fn on_reply(&mut self, datagram: &[u8]) -> (r: ZhtResult<ZPack>)
        ensures
            final(self).limit() == old(self).limit(),
            final(self)@ == after_reply(old(self)@, datagram@.len()),
            r is Ok <==> message_of(datagram@) is Some,
            match r {
                Ok(z) => message_of(datagram@) == Some(z@),
                Err(e) => is_message_error(datagram@, e@),
            },
    {
        self.metrics.add_bytes_received(datagram.len() as u64);
        self.metrics.inc_messages_received();
        match decode_message(datagram) {
            Ok((zpack, _)) => Ok(zpack),
            Err(e) => Err(e),
        }
    }

    /// Counts that nothing could be received, and gives the error for it.
    pub fn on_receive_failed(&mut self, reason: String) -> (r: ZhtError)
        ensures
            final(self).limit() == old(self).limit(),
            final(self)@ == after_receive_error(old(self)@),
            r@ == ErrorView::RecvFailed(reason@),
    {
        self.metrics.inc_recv_errors();
        ZhtError::RecvFailed(reason)
    }

    /// Counts that nothing came back in time, and gives the error for it.
    pub fn on_timeout(&mut self, request: &UdpRequest) -> (r: ZhtError)
        ensures
            final(self).limit() == old(self).limit(),
            final(self)@ == after_receive_error(old(self)@),
            r@ == ErrorView::RecvFailed(
                if request.in_chunks() {
                    "UDP timeout (chunked)"@
                } else {
                    "UDP timeout"@
                },
            ),
    {
        let reason = if request.chunked {
            "UDP timeout (chunked)".to_owned()
        } else {
            "UDP timeout".to_owned()
        };
        self.on_receive_failed(reason)
    }

    /// The number of connections, of which there are none.
    pub fn connection_count(&self) -> (r: usize)
        ensures
            r == 0,
    {
        0
    }

    /// The name of the protocol.
    pub fn protocol_name(&self) -> (r: &'static str)
        ensures
            r@ == "UDP"@,
    {
        "UDP"
    }

    /// The metrics of the proxy.
    pub fn metrics(&self) -> (r: &TransportMetrics)
        ensures
            r@ == self@,
    {
        &self.metrics
    }
}

impl Default for UdpProxy {
    fn default() -> (r: UdpProxy)
        ensures
            r@ == zero_snapshot(),
            r.limit() == DEFAULT_CHUNK_THRESHOLD,
    {
        UdpProxy::new()
    }
}

// ── The server ──────────────────────────────────────────────────────────

/// The request that reassembled bytes hold: a framed message, or else a message
/// by itself, as a request in chunks travels.
pub open spec fn reassembled_request(bytes: Seq<u8>) -> Option<ZPackView> {
    match message_of(bytes) {
        Some(z) => Some(z),
        None => zpack_of(bytes),
    }
}

/// The request that a datagram brings, given what has come in of chunked
/// messages: the framed message that it holds, or else the request that it
/// completes as the last chunk.
pub open spec fn brought_request(inflight: Map<u64, Assembly>, datagram: Seq<u8>) -> Option<
    ZPackView,
> {
    match message_of(datagram) {
        Some(z) => Some(z),
        None => match received(inflight, datagram).1 {
            Some(bytes) => reassembled_request(bytes),
            None => None,
        },
    }
}

/// What has come in of chunked messages after a datagram.
pub open spec fn inflight_after(inflight: Map<u64, Assembly>, datagram: Seq<u8>) -> Map<
    u64,
    Assembly,
> {
    match message_of(datagram) {
        Some(z) => inflight,
        None => received(inflight, datagram).0,
    }
}

/// The counters of the receiver after a datagram: a chunk counts, and a framed
/// message does not.
pub open spec fn counted_datagram(c: MetricsSnapshot, datagram: Seq<u8>) -> MetricsSnapshot {
    match message_of(datagram) {
        Some(z) => c,
        None => chunk_counted(c, datagram),
    }
}

/// What has come in of chunked messages after datagrams, one after the other,
/// and the request that the last of them brings, if any.
pub open spec fn brought_all(inflight: Map<u64, Assembly>, datagrams: Seq<Seq<u8>>) -> (
    Map<u64, Assembly>,
    Option<ZPackView>,
)
    decreases datagrams.len(),
{
    if datagrams.len() == 0 {
        (inflight, None)
    } else {
        let before = brought_all(inflight, datagrams.drop_last()).0;
        (inflight_after(before, datagrams.last()), brought_request(before, datagrams.last()))
    }
}

/// UDP server that receives datagrams and takes requests out of them.
#[derive(Debug)]
pub struct UdpServer {
    metrics: TransportMetrics,
}

impl View for UdpServer {
    type V = MetricsSnapshot;

    closed spec fn view(&self) -> MetricsSnapshot {
        self.metrics@
    }
}

impl UdpServer {
    /// Create a server.
    pub fn new() -> (r: UdpServer)
        ensures
            r@ == zero_snapshot(),
    {
        UdpServer { metrics: TransportMetrics::new() }
    }

    /// Create a server with the given metrics.
    pub fn with_metrics(metrics: TransportMetrics) -> (r: UdpServer)
        ensures
            r@ == metrics@,
    {
        UdpServer { metrics }
    }

    /// The metrics of the server.
    pub fn metrics(&self) -> (r: &TransportMetrics)
        ensures
            r@ == self@,
    {
        &self.metrics
    }

    /// Takes in a datagram, and gives the request that it brings, if any. The
    /// request is counted as processed.
    pub fn on_datagram(&mut self, chunks: &mut ChunkReceiver, datagram: &[u8]) -> (r: Option<ZPack>)
        ensures
            final(chunks)@ == inflight_after(old(chunks)@, datagram@),
            r is Some <==> brought_request(old(chunks)@, datagram@) is Some,
            r matches Some(z) ==> brought_request(old(chunks)@, datagram@) == Some(z@),
            final(chunks).counters() == (match old(chunks).counters() {
                Some(c) => Some(counted_datagram(c, datagram@)),
                None => None,
            }),
            final(self)@ == (MetricsSnapshot {
                bytes_received: old(self)@.bytes_received.wrapping_add(datagram@.len() as u64),
                requests_processed: if r is Some {
                    old(self)@.requests_processed.wrapping_add(1)
                } else {
                    old(self)@.requests_processed
                },
                ..old(self)@
            }),
    {
        self.metrics.add_bytes_received(datagram.len() as u64);
        match decode_message(datagram) {
            Ok((request, _)) => {
                self.metrics.inc_requests_processed();
                return Some(request);
            },
            Err(_) => {},
        }
        match chunks.receive(datagram) {
            Ok(Some(bytes)) => {
                let request = match decode_message(&bytes) {
                    Ok((request, _)) => Some(request),
                    Err(_) => match decode_payload(&bytes) {
                        Ok(request) => Some(request),
                        Err(_) => None,
                    },
                };
                if request.is_some() {
                    self.metrics.inc_requests_processed();
                }
                request
            },
            Ok(None) => None,
            Err(_) => None,
        }
    }

    /// Counts the bytes of a response that was sent.
    pub fn on_response_sent(&mut self, len: u64)
        ensures
            final(self)@ == (MetricsSnapshot {
                bytes_sent: old(self)@.bytes_sent.wrapping_add(len),
                ..old(self)@
            }),
    {
        self.metrics.add_bytes_sent(len);
    }

    /// Counts a response that could not be sent.
    pub fn on_send_failed(&mut self)
        ensures
            final(self)@ == (MetricsSnapshot {
                send_errors: old(self)@.send_errors.wrapping_add(1),
                ..old(self)@
            }),
    {
        self.metrics.inc_send_errors();
    }

    /// Counts that nothing could be received.
    pub fn on_receive_failed(&mut self)
        ensures
            final(self)@ == after_receive_error(old(self)@),
    {
        self.metrics.inc_recv_errors();
    }

    /// The name of the protocol.
    pub fn protocol_name(&self) -> (r: &'static str)
        ensures
            r@ == "UDP"@,
    {
        "UDP"
    }
}

impl Default for UdpServer {
    fn default() -> (r: UdpServer)
        ensures
            r@ == zero_snapshot(),
    {
        UdpServer::new()
    }
}

/// A request that travels as one framed datagram is brought to the server as it
/// was sent, whatever chunks are under way, and leaves those alone. A framed
/// response comes back the same way.
pub proof fn law_framed_request_arrives(inflight: Map<u64, Assembly>, z: ZPackView)
    requires
        is_sendable(z),
        zpack_bytes(z).len() < 0x1_0000_0000,
    ensures
        message_of(frame(zpack_bytes(z))) == Some(z),
        brought_request(inflight, frame(zpack_bytes(z))) == Some(z),
        inflight_after(inflight, frame(zpack_bytes(z))) == inflight,
{
    law_message_round_trip(z, Seq::empty());
    assert(frame(zpack_bytes(z)) + Seq::<u8>::empty() =~= frame(zpack_bytes(z)));
}

/// Those of the datagrams that hold no framed message, in order.
pub open spec fn unframed(datagrams: Seq<Seq<u8>>) -> Seq<Seq<u8>>
    decreases datagrams.len(),
{
    if datagrams.len() == 0 {
        Seq::empty()
    } else {
        let before = unframed(datagrams.drop_last());
        if message_of(datagrams.last()) is None {
            before.push(datagrams.last())
        } else {
            before
        }
    }
}

proof fn lemma_brought(inflight: Map<u64, Assembly>, datagrams: Seq<Seq<u8>>)
    ensures
        ({
            let all = brought_all(inflight, datagrams);
            let chunks = received_all(inflight, unframed(datagrams));
            &&& all.0 == chunks.0
            &&& datagrams.len() > 0 && message_of(datagrams.last()) is None ==> all.1 == (
            match chunks.1 {
                Some(bytes) => reassembled_request(bytes),
                None => None,
            })
        }),
    decreases datagrams.len(),
{
    if datagrams.len() > 0 {
        let before = datagrams.drop_last();
        lemma_brought(inflight, before);
        if message_of(datagrams.last()) is None {
            assert(unframed(before).push(datagrams.last()).drop_last() =~= unframed(before));
        }
    }
}

proof fn lemma_unframed_prefix(datagrams: Seq<Seq<u8>>, n: int)
    requires
        0 <= n <= datagrams.len(),
    ensures
        ({
            let part = unframed(datagrams.take(n));
            let all = unframed(datagrams);
            &&& part.len() <= all.len()
            &&& part == all.take(part.len() as int)
            &&& n < datagrams.len() && message_of(datagrams.last()) is None ==> part.len() < all.len()
            &&& n > 0 && message_of(datagrams[n - 1]) is None ==> part.len() > 0 && part.last()
                == datagrams[n - 1]
        }),
    decreases datagrams.len(),
{
    let part = unframed(datagrams.take(n));
    let all = unframed(datagrams);
    if n == datagrams.len() {
        assert(datagrams.take(n) =~= datagrams);
        assert(all.take(all.len() as int) =~= all);
    } else {
        let before = datagrams.drop_last();
        lemma_unframed_prefix(before, n);
        assert(before.take(n) =~= datagrams.take(n));
        assert(all.take(part.len() as int) =~= unframed(before).take(part.len() as int));
    }
}

/// A request that travels in chunks is brought to the server as it was sent when
/// the last of its chunks comes in, in whatever order they come, also while
/// other datagrams, framed messages among them, come in between; no chunk before
/// the last one brings a request. The request is one that is not taken for a
/// frame when it is put together.
pub proof fn law_chunked_request_arrives_among_others(
    inflight: Map<u64, Assembly>,
    datagrams: Seq<Seq<u8>>,
    id: u64,
    z: ZPackView,
    numbers: Seq<u64>,
)
    requires
        is_sendable(z),
        is_chunkable(zpack_bytes(z).len(), CHUNK_PAYLOAD_SIZE as nat),
        message_of(zpack_bytes(z)) is None,
        !inflight.contains_key(id),
        numbers.no_duplicates(),
        numbers.len() == piece_count(zpack_bytes(z).len(), CHUNK_PAYLOAD_SIZE as nat),
        forall|k: int|
            0 <= k < numbers.len() ==> #[trigger] numbers[k] < piece_count(
                zpack_bytes(z).len(),
                CHUNK_PAYLOAD_SIZE as nat,
            ),
        own_chunks(unframed(datagrams), id) == chunks_at(
            id,
            zpack_bytes(z),
            CHUNK_PAYLOAD_SIZE as nat,
            numbers,
        ),
        datagrams.len() > 0,
        message_of(datagrams.last()) is None,
        is_own(datagrams.last(), id),
    ensures
        brought_all(inflight, datagrams).1 == Some(z),
        !brought_all(inflight, datagrams).0.contains_key(id),
        forall|n: int|
            0 < n < datagrams.len() && message_of(datagrams[n - 1]) is None && is_own(
                datagrams[n - 1],
                id,
            ) ==> (#[trigger] brought_all(inflight, datagrams.take(n))).1 is None,
{
    let size = CHUNK_PAYLOAD_SIZE as nat;
    let raws = unframed(datagrams);
    lemma_brought(inflight, datagrams);
    law_zpack_round_trip(z);
    law_chunks_deliver_among_others(inflight, raws, id, zpack_bytes(z), size, numbers);
    assert forall|n: int|
        0 < n < datagrams.len() && message_of(datagrams[n - 1]) is None && is_own(
            datagrams[n - 1],
            id,
        ) implies (#[trigger] brought_all(inflight, datagrams.take(n))).1 is None by {
        lemma_brought(inflight, datagrams.take(n));
        lemma_unframed_prefix(datagrams, n);
        assert(datagrams.take(n).last() == datagrams[n - 1]);
        let k = unframed(datagrams.take(n)).len() as int;
        assert(raws[k - 1] == raws.take(k).last());
        assert(received_all(inflight, raws.take(k)).1 is None);
    }
}

proof fn lemma_chunks_unframed(id: u64, data: Seq<u8>, numbers: Seq<u64>, n: int)
    requires
        forall|k: int|
            0 <= k < numbers.len() ==> #[trigger] numbers[k] < piece_count(
                data.len(),
                CHUNK_PAYLOAD_SIZE as nat,
            ),
        0 <= n <= numbers.len(),
    ensures
        ({
            let chunks = chunks_at(id, data, CHUNK_PAYLOAD_SIZE as nat, numbers);
            &&& unframed(chunks.take(n)) == chunks.take(n)
            &&& n > 0 ==> message_of(chunks[n - 1]) is None
        }),
    decreases n,
{
    let size = CHUNK_PAYLOAD_SIZE as nat;
    let chunks = chunks_at(id, data, size, numbers);
    if n == 0 {
        assert(chunks.take(0) =~= Seq::empty());
    } else {
        lemma_chunks_unframed(id, data, numbers, n - 1);
        let i = numbers[n - 1] as nat;
        let total = piece_count(data.len(), size);
        lemma_pieces(data.len(), size, i);
        law_header_has_fixed_size(id, i, total, piece(data, size, i));
        lemma_chunk_first_byte(id, i, total, piece(data, size, i));
        assert(chunks[n - 1] == chunk_bytes(id as nat, i, total, piece(data, size, i)));
        lemma_no_frame(chunks[n - 1]);
        assert(chunks.take(n).drop_last() =~= chunks.take(n - 1));
        assert(chunks.take(n).last() == chunks[n - 1]);
        assert(chunks.take(n - 1).push(chunks[n - 1]) =~= chunks.take(n));
    }
}

/// A request whose chunks come in alone, in whatever order, is brought to the
/// server as it was sent with the last of them and not before, and leaves
/// nothing behind.
pub proof fn law_chunked_request_arrives(
    inflight: Map<u64, Assembly>,
    id: u64,
    z: ZPackView,
    numbers: Seq<u64>,
)
    requires
        is_sendable(z),
        is_chunkable(zpack_bytes(z).len(), CHUNK_PAYLOAD_SIZE as nat),
        message_of(zpack_bytes(z)) is None,
        !inflight.contains_key(id),
        numbers.no_duplicates(),
        numbers.len() == piece_count(zpack_bytes(z).len(), CHUNK_PAYLOAD_SIZE as nat),
        forall|k: int|
            0 <= k < numbers.len() ==> #[trigger] numbers[k] < piece_count(
                zpack_bytes(z).len(),
                CHUNK_PAYLOAD_SIZE as nat,
            ),
    ensures
        ({
            let chunks = chunks_at(id, zpack_bytes(z), CHUNK_PAYLOAD_SIZE as nat, numbers);
            &&& brought_all(inflight, chunks) == (inflight, Some(z))
            &&& forall|n: int|
                0 <= n < chunks.len() ==> (#[trigger] brought_all(inflight, chunks.take(n))).1 is None
        }),
{
    let size = CHUNK_PAYLOAD_SIZE as nat;
    let data = zpack_bytes(z);
    let chunks = chunks_at(id, data, size, numbers);
    law_zpack_round_trip(z);
    law_chunks_deliver_message(inflight, id, data, size, numbers);
    lemma_chunks_unframed(id, data, numbers, numbers.len() as int);
    assert(chunks.take(chunks.len() as int) =~= chunks);
    lemma_brought(inflight, chunks);
    assert forall|n: int| 0 <= n < chunks.len() implies (#[trigger] brought_all(
        inflight,
        chunks.take(n),
    )).1 is None by {
        lemma_chunks_unframed(id, data, numbers, n);
        lemma_brought(inflight, chunks.take(n));
        assert(received_all(inflight, chunks.take(n)).1 is None);
        if n > 0 {
            assert(chunks.take(n).last() == chunks[n - 1]);
        }
    }
}

/// The datagrams that a client sends for a request in chunks bring that request
/// to the server.
pub proof fn law_sent_chunks_bring_request(inflight: Map<u64, Assembly>, id: u64, z: ZPackView)
    requires
        is_sendable(z),
        is_chunkable(zpack_bytes(z).len(), CHUNK_PAYLOAD_SIZE as nat),
        message_of(zpack_bytes(z)) is None,
        !inflight.contains_key(id),
    ensures
        brought_all(inflight, chunk_datagrams(id, zpack_bytes(z))) == (inflight, Some(z)),
{
    let total = piece_count(zpack_bytes(z).len(), CHUNK_PAYLOAD_SIZE as nat);
    let numbers = Seq::new(total, |i: int| i as u64);
    law_chunked_request_arrives(inflight, id, z, numbers);
    assert(chunk_datagrams(id, zpack_bytes(z)) =~= chunks_at(
        id,
        zpack_bytes(z),
        CHUNK_PAYLOAD_SIZE as nat,
        numbers,
    ));
}

/// What a proxy counts of a datagram: its bytes, a chunk where it is one, and a
/// message where it is the last. A reply counts its bytes and a message, and a
/// failed reception an error. Nothing else changes.
pub proof fn law_datagram_counters(s: MetricsSnapshot, len: nat)
    ensures
        after_datagram(s, len, false, true) == (MetricsSnapshot {
            bytes_sent: s.bytes_sent.wrapping_add(len as u64),
            messages_sent: s.messages_sent.wrapping_add(1),
            ..s
        }),
        after_datagram(s, len, true, false) == (MetricsSnapshot {
            bytes_sent: s.bytes_sent.wrapping_add(len as u64),
            chunks_sent: s.chunks_sent.wrapping_add(1),
            ..s
        }),
        after_datagram(s, len, true, true) == (MetricsSnapshot {
            bytes_sent: s.bytes_sent.wrapping_add(len as u64),
            chunks_sent: s.chunks_sent.wrapping_add(1),
            messages_sent: s.messages_sent.wrapping_add(1),
            ..s
        }),
        after_datagram(s, len, false, false) == (MetricsSnapshot {
            bytes_sent: s.bytes_sent.wrapping_add(len as u64),
            ..s
        }),
        after_reply(s, len) == (MetricsSnapshot {
            bytes_received: s.bytes_received.wrapping_add(len as u64),
            messages_received: s.messages_received.wrapping_add(1),
            ..s
        }),
        after_receive_error(s) == (MetricsSnapshot {
            recv_errors: s.recv_errors.wrapping_add(1),
            ..s
        }),
{
}

/// The datagrams of a message in chunks are its chunks of 512 bytes, in order.
pub proof fn law_chunk_datagrams(id: u64, data: Seq<u8>, i: int)
    requires
        0 <= i < piece_count(data.len(), 512),
    ensures
        chunk_datagrams(id, data).len() == piece_count(data.len(), 512),
        chunk_datagrams(id, data)[i] == chunk_bytes(
            id as nat,
            i as nat,
            piece_count(data.len(), 512),
            piece(data, 512, i as nat),
        ),
{
}

/// What a datagram brings and leaves: a framed message is the request, and touches
/// no chunks. Anything else is taken as a chunk; the message that it completes is
/// the request, in a frame or by itself; and without such a message there is none.
pub proof fn law_datagram_brings(inflight: Map<u64, Assembly>, datagram: Seq<u8>)
    ensures
        message_of(datagram) is Some ==> brought_request(inflight, datagram) == message_of(datagram)
            && inflight_after(inflight, datagram) == inflight,
        message_of(datagram) is None ==> {
            let (after, message) = received(inflight, datagram);
            &&& inflight_after(inflight, datagram) == after
            &&& message is None ==> brought_request(inflight, datagram) is None
            &&& message matches Some(bytes) ==> {
                &&& message_of(bytes) is Some ==> brought_request(inflight, datagram) == message_of(bytes)
                &&& message_of(bytes) is None ==> brought_request(inflight, datagram) == zpack_of(bytes)
            }
        },
{
}

/// The counters of the receiver move by one for a chunk that is no frame, and for
/// nothing else.
pub proof fn law_receiver_counts_datagram(c: MetricsSnapshot, datagram: Seq<u8>)
    ensures
        message_of(datagram) is None && parsed_chunk(datagram) is Ok ==> counted_datagram(c, datagram)
            == (MetricsSnapshot { chunks_received: c.chunks_received.wrapping_add(1), ..c }),
        message_of(datagram) is Some || parsed_chunk(datagram) is Err ==> counted_datagram(c, datagram)
            == c,
{
}

/// The views of datagrams are their bytes, one for each and in order.
pub proof fn law_datagram_views(v: Seq<Vec<u8>>, i: int)
    requires
        0 <= i < v.len(),
    ensures
        datagram_views(v).len() == v.len(),
        datagram_views(v)[i] == v[i]@,
{
}

} // verus!
