//! Chunked messages for large payloads.
//!
//! A message that is too large for one transfer is split into chunks of a
//! fixed size. Each chunk carries a 38-byte header:
//!
//! ```text
//! [20 bytes: uuid] [7 bytes: seq_num] [7 bytes: total] [4 bytes: payload_size] [N bytes: payload]
//! ```
//!
//! - **uuid**: Unique identifier for the message being chunked (padded to 20 bytes).
//! - **seq_num**: Zero-indexed sequence number of this chunk (padded to 7 bytes).
//! - **total**: Total number of chunks in this message (padded to 7 bytes).
//! - **payload_size**: Byte count of the payload in *this* chunk (padded to 4 bytes).
//! - **payload**: Raw bytes of this chunk's slice of the original message.
//!
//! A number that has too many digits for its field is written as asterisks, so
//! that the header keeps its size and nobody takes the field for a number.
//!
//! Chunks are collected by sequence number. When all of them have arrived,
//! they are concatenated in order.

use crate::error::{ErrorView, ZhtError, ZhtResult};
use crate::id_helper::{id_from, IdHelper};
use crate::metrics::{MetricsSnapshot, TransportMetrics};
use crate::number::{
    decimal, decimal_of, fixed_field, fixed_field_of, is_digit, law_decimal_round_trip,
    lemma_decimal_digits, lemma_decimal_len, lemma_trim_aligned, number_error_text, parse_unsigned,
    read_unsigned, right_aligned, right_aligned_of, unsigned_error,
};
use crate::text::{
    copy_bytes, copy_range, is_trimmed, join4, lemma_trim_trimmed, text_checked, trim, trimmed,
    utf8_bytes, utf8_error_words,
};
use std::collections::HashMap;
use vstd::prelude::*;
use vstd::slice::slice_subrange;
use vstd::utf8::*;

verus! {

broadcast use vstd::std_specs::hash::group_hash_axioms;

/// Default payload size per chunk.
pub const CHUNK_PAYLOAD_SIZE: usize = 512;

/// Total chunk header size: uuid(20) + seq_num(7) + total(7) + payload_size(4) = 38.
pub const CHUNK_HEADER_SIZE: usize = 38;

/// Maximum message size before chunking is triggered (1 MB by default).
/// Messages smaller than this threshold are sent as a single frame without
/// chunking. The `MSG_MAXSIZE` parameter can override it.
pub const DEFAULT_CHUNK_THRESHOLD: usize = 1_048_576;

// ── Splitting a message ─────────────────────────────────────────────────

/// The number of pieces of at most `size` bytes that `len` bytes fill; an
/// empty message has one empty piece.
pub open spec fn piece_count(len: nat, size: nat) -> nat {
    if len == 0 {
        1
    } else {
        ((len - 1) as nat / size + 1) as nat
    }
}

/// The end of the piece with number `i`.
pub open spec fn piece_end(len: nat, size: nat, i: nat) -> nat {
    if (i + 1) * size < len {
        (i + 1) * size
    } else {
        len
    }
}

/// The piece with number `i`: `size` bytes from `i * size` on, or what is left.
pub open spec fn piece(data: Seq<u8>, size: nat, i: nat) -> Seq<u8> {
    data.subrange((i * size) as int, piece_end(data.len(), size, i) as int)
}

/// The header of a chunk.
pub open spec fn chunk_header(id: nat, seq: nat, total: nat, len: nat) -> Seq<char> {
    right_aligned(decimal(id), 20) + fixed_field(seq, 7) + fixed_field(total, 7) + fixed_field(
        len,
        4,
    )
}

/// The bytes of a chunk: its header and its payload.
pub open spec fn chunk_bytes(id: nat, seq: nat, total: nat, payload: Seq<u8>) -> Seq<u8> {
    encode_utf8(chunk_header(id, seq, total, payload.len())) + payload
}

/// A single chunk of a large message, ready for transmission.
#[derive(Debug)]
pub struct Chunk {
    /// Serialized header + payload bytes.
    pub data: Vec<u8>,
    /// Sequence number of this chunk (0-indexed).
    pub seq_num: u64,
    /// Total number of chunks in this message.
    pub total: u64,
}

impl Chunk {
    /// Whether this is the chunk with number `i` of a message: a header of 38
    /// bytes, and the piece.
    pub open spec fn is_piece(&self, id: u64, data: Seq<u8>, size: nat, i: nat) -> bool {
        let total = piece_count(data.len(), size);
        &&& self.seq_num == i
        &&& self.total == total
        &&& self.data@.len() == CHUNK_HEADER_SIZE + piece(data, size, i).len()
        &&& self.data@.skip(CHUNK_HEADER_SIZE as int) == piece(data, size, i)
        &&& self.data@ == chunk_bytes(id as nat, i, total, piece(data, size, i))
    }
}

impl Clone for Chunk {
    fn clone(&self) -> (r: Chunk)
        ensures
            r.data@ == self.data@,
            r.seq_num == self.seq_num,
            r.total == self.total,
    {
        Chunk { data: copy_bytes(&self.data), seq_num: self.seq_num, total: self.total }
    }
}

/// Where the piece with number `i` begins and ends.
pub proof fn lemma_pieces(len: nat, size: nat, i: nat)
    requires
        len > 0 ==> size > 0,
        i < piece_count(len, size),
    ensures
        i * size <= piece_end(len, size, i) <= len,
        piece_end(len, size, i) - i * size <= size,
        len > 0 ==> i * size < len,
        i + 1 < piece_count(len, size) ==> piece_end(len, size, i) == (i + 1) * size,
        i + 1 == piece_count(len, size) ==> piece_end(len, size, i) == len,
{
    if len > 0 {
        let q = (len - 1) as nat / size;
        vstd::arithmetic::div_mod::lemma_fundamental_div_mod((len - 1) as int, size as int);
        assert(size * q == q * size) by (nonlinear_arith);
        assert(i * size <= q * size) by (nonlinear_arith)
            requires
                i <= q,
        ;
        assert((i + 1) * size == i * size + size) by (nonlinear_arith);
        if i < q {
            assert((i + 1) * size <= q * size) by (nonlinear_arith)
                requires
                    i + 1 <= q,
            ;
        }
    } else {
        assert(i == 0);
        assert(0 * size == 0) by (nonlinear_arith);
    }
}

fn make_header(id: u64, seq: u64, total: u64, len: u64) -> (r: String)
    ensures
        r@ == chunk_header(id as nat, seq as nat, total as nat, len as nat),
{
    let uuid = right_aligned_of(&decimal_of(id), 20);
    let seq = fixed_field_of(seq, 7);
    let total = fixed_field_of(total, 7);
    let size = fixed_field_of(len, 4);
    join4(&uuid, &seq, &total, &size)
}

/// Fragment a byte payload into the chunks of the message `msg_id`, in
/// sequence order.
pub fn chunk_message_with_id(msg_id: u64, data: &[u8], chunk_payload_size: usize) -> (r: Vec<Chunk>)
    requires
        data@.len() > 0 ==> chunk_payload_size > 0,
    ensures
        r@.len() == piece_count(data@.len(), chunk_payload_size as nat),
        forall|i: int|
            0 <= i < r@.len() ==> (#[trigger] r@[i]).is_piece(
                msg_id,
                data@,
                chunk_payload_size as nat,
                i as nat,
            ),
{
    let ghost size = chunk_payload_size as nat;
    let total: u64 = if data.len() == 0 {
        1
    } else {
        proof {
            assert((data@.len() - 1) as nat / size <= data@.len() - 1) by (nonlinear_arith)
                requires
                    size > 0,
                    data@.len() > 0,
            ;
        }
        ((data.len() - 1) / chunk_payload_size) as u64 + 1
    };
    let mut chunks: Vec<Chunk> = Vec::new();
    let mut start: usize = 0;
    let mut seq: u64 = 0;
    proof {
        assert(0 * size == 0) by (nonlinear_arith);
    }
    while seq < total
        invariant
            size == chunk_payload_size,
            data@.len() > 0 ==> size > 0,
            total == piece_count(data@.len(), size),
            seq <= total,
            seq < total ==> start == seq * size,
            chunks@.len() == seq,
            forall|i: int|
                0 <= i < chunks@.len() ==> (#[trigger] chunks@[i]).is_piece(msg_id, data@, size, i as nat),
        decreases total - seq,
    {
        proof {
            lemma_pieces(data@.len(), size, seq as nat);
            assert((seq + 1) * size == seq * size + size) by (nonlinear_arith);
        }
        let end: usize = if data.len() - start > chunk_payload_size {
            start + chunk_payload_size
        } else {
            data.len()
        };
        let mut payload = copy_range(data, start, end);
        assert(payload@ == piece(data@, size, seq as nat));
        let header = make_header(msg_id, seq, total, payload.len() as u64);
        let mut buf: Vec<u8> = utf8_bytes(&header);
        buf.append(&mut payload);
        let chunk = Chunk { data: buf, seq_num: seq, total };
        proof {
            law_header_has_fixed_size(
                msg_id,
                seq as nat,
                total as nat,
                piece(data@, size, seq as nat),
            );
        }
        assert(chunk.is_piece(msg_id, data@, size, seq as nat));
        chunks.push(chunk);
        start = end;
        seq += 1;
    }
    chunks
}

/// Fragment a byte payload into chunks ready for network transmission.
///
/// Returns the message ID assigned and the chunks in sequence order, each with
/// at most `chunk_payload_size` bytes of payload.
pub fn chunk_message(data: &[u8], chunk_payload_size: usize) -> (r: (u64, Vec<Chunk>))
    requires
        data@.len() > 0 ==> chunk_payload_size > 0,
    ensures
        exists|seed: u64| r.0 == #[trigger] id_from(seed),
        r.1@.len() == piece_count(data@.len(), chunk_payload_size as nat),
        forall|i: int|
            0 <= i < r.1@.len() ==> (#[trigger] r.1@[i]).is_piece(
                r.0,
                data@,
                chunk_payload_size as nat,
                i as nat,
            ),
{
    let msg_id = IdHelper::gen_id();
    (msg_id, chunk_message_with_id(msg_id, data, chunk_payload_size))
}

// ── Parsing a chunk ─────────────────────────────────────────────────────

/// The number in a field of the header: the bytes are text that spells it,
/// with white space around it at most.
pub open spec fn number_field(bytes: Seq<u8>, name: Seq<char>, max: nat) -> Result<
    nat,
    ErrorView,
> {
    if !valid_utf8(bytes) {
        Err(
            ErrorView::RecvFailed(
                "Invalid "@ + name + " encoding: "@ + utf8_error_words(bytes),
            ),
        )
    } else {
        let text = trim(decode_utf8(bytes));
        match parse_unsigned(text, max) {
            Some(v) => Ok(v),
            None => Err(
                ErrorView::RecvFailed(
                    "Invalid "@ + name + " '"@ + text + "': "@ + number_error_text(
                        unsigned_error(text, max),
                    ),
                ),
            ),
        }
    }
}

/// The message id, sequence number, total and payload of a chunk.
pub open spec fn parsed_chunk(raw: Seq<u8>) -> Result<(nat, nat, nat, Seq<u8>), ErrorView> {
    if raw.len() < 38 {
        Err(
            ErrorView::RecvFailed(
                "Chunk too short: expected >= "@ + decimal(38) + " bytes, got "@ + decimal(
                    raw.len(),
                ),
            ),
        )
    } else {
        match number_field(raw.subrange(0, 20), "UUID"@, u64::MAX as nat) {
            Err(e) => Err(e),
            Ok(id) => match number_field(raw.subrange(20, 27), "seq_num"@, u64::MAX as nat) {
                Err(e) => Err(e),
                Ok(seq) => match number_field(raw.subrange(27, 34), "total"@, u64::MAX as nat) {
                    Err(e) => Err(e),
                    Ok(total) => match number_field(
                        raw.subrange(34, 38),
                        "payload_size"@,
                        usize::MAX as nat,
                    ) {
                        Err(e) => Err(e),
                        Ok(size) => if raw.len() < 38 + size {
                            Err(
                                ErrorView::RecvFailed(
                                    "Chunk payload truncated: expected "@ + decimal(size)
                                        + " bytes, got "@ + decimal((raw.len() - 38) as nat),
                                ),
                            )
                        } else {
                            Ok((id, seq, total, raw.subrange(38, 38 + size as int)))
                        },
                    },
                },
            },
        }
    }
}

fn read_field(bytes: &[u8], name: &str, max: u64) -> (r: ZhtResult<u64>)
    ensures
        match r {
            Ok(v) => number_field(bytes@, name@, max as nat) == Ok::<nat, ErrorView>(v as nat) && v <= max,
            Err(e) => number_field(bytes@, name@, max as nat) == Err::<nat, ErrorView>(e@),
        },
{
    match text_checked(bytes) {
        Err(words) => Err(
            ZhtError::RecvFailed(join4("Invalid ", name, " encoding: ", &words)),
        ),
        Ok(text) => {
            let text = trimmed(text);
            match read_unsigned(&text, max) {
                Ok(v) => Ok(v),
                Err(e) => {
                    let mut message = join4("Invalid ", name, " '", &text);
                    message.push_str("': ");
                    message.push_str(&e.to_string());
                    Err(ZhtError::RecvFailed(message))
                },
            }
        },
    }
}

/// Parse a single chunk from raw bytes.
///
/// Returns `(msg_id, seq_num, total, payload_bytes)`. The error is
/// `RecvFailed` where the raw data is too short for the header or the payload
/// or a field of the header is not a number.
pub fn parse_chunk(raw: &[u8]) -> (r: ZhtResult<(u64, u64, u64, &[u8])>)
    ensures
        match r {
            Ok((id, seq, total, payload)) => parsed_chunk(raw@) == Ok::<_, ErrorView>(
                (id as nat, seq as nat, total as nat, payload@),
            ),
            Err(e) => parsed_chunk(raw@) == Err::<(nat, nat, nat, Seq<u8>), ErrorView>(e@),
        },
{
    if raw.len() < CHUNK_HEADER_SIZE {
        return Err(
            ZhtError::RecvFailed(
                join4(
                    "Chunk too short: expected >= ",
                    &decimal_of(CHUNK_HEADER_SIZE as u64),
                    " bytes, got ",
                    &decimal_of(raw.len() as u64),
                ),
            ),
        );
    }
    let msg_id: u64 = match read_field(slice_subrange(raw, 0, 20), "UUID", u64::MAX) {
        Ok(v) => v,
        Err(e) => {
            return Err(e);
        },
    };
    let seq_num: u64 = match read_field(slice_subrange(raw, 20, 27), "seq_num", u64::MAX) {
        Ok(v) => v,
        Err(e) => {
            return Err(e);
        },
    };
    let total: u64 = match read_field(slice_subrange(raw, 27, 34), "total", u64::MAX) {
        Ok(v) => v,
        Err(e) => {
            return Err(e);
        },
    };
    let payload_size: usize = match read_field(
        slice_subrange(raw, 34, 38),
        "payload_size",
        usize::MAX as u64,
    ) {
        Ok(v) => v as usize,
        Err(e) => {
            return Err(e);
        },
    };
    let available: usize = raw.len() - CHUNK_HEADER_SIZE;
    if available < payload_size {
        return Err(
            ZhtError::RecvFailed(
                join4(
                    "Chunk payload truncated: expected ",
                    &decimal_of(payload_size as u64),
                    " bytes, got ",
                    &decimal_of(available as u64),
                ),
            ),
        );
    }
    let payload = slice_subrange(raw, CHUNK_HEADER_SIZE, CHUNK_HEADER_SIZE + payload_size);
    Ok((msg_id, seq_num, total, payload))
}

// ── Reassembly ──────────────────────────────────────────────────────────

/// The chunks with the numbers from zero up to, and without, `total`, one
/// behind the other.
pub open spec fn assembled(chunks: Map<u64, Seq<u8>>, total: nat) -> Seq<u8>
    decreases total,
{
    if total == 0 {
        Seq::empty()
    } else {
        assembled(chunks, (total - 1) as nat) + chunks[(total - 1) as u64]
    }
}

/// Whether the chunks with the numbers from zero up to, and without, `total`
/// are all there.
pub open spec fn has_all(chunks: Map<u64, Seq<u8>>, total: nat) -> bool {
    forall|i: u64| i < total ==> #[trigger] chunks.contains_key(i)
}

/// What has come in of a message: how many chunks it has, and those that are
/// there.
pub struct Assembly {
    pub total: u64,
    pub chunks: Map<u64, Seq<u8>>,
}

impl Assembly {
    /// All chunks of the message have come in.
    pub open spec fn is_complete(self) -> bool {
        has_all(self.chunks, self.total as nat)
    }

    /// The assembly with one more chunk.
    pub open spec fn with_chunk(self, seq_num: u64, payload: Seq<u8>) -> Assembly {
        Assembly { total: self.total, chunks: self.chunks.insert(seq_num, payload) }
    }
}

/// State for reassembling incoming chunks into a complete message.
#[derive(Debug)]
pub struct ChunkReassembler {
    chunks: HashMap<u64, Vec<u8>>,
    total: u64,
    msg_id: u64,
}

impl View for ChunkReassembler {
    type V = Assembly;

    closed spec fn view(&self) -> Assembly {
        Assembly { total: self.total, chunks: self.chunks@.map_values(|v: Vec<u8>| v@) }
    }
}

impl ChunkReassembler {
    /// The ID of the message.
    pub closed spec fn id(&self) -> u64 {
        self.msg_id
    }

    /// Create a new reassembler for a message with the given ID and total
    /// chunks. The full size is a hint only.
    pub fn new(msg_id: u64, total: u64, _full_size: usize) -> (r: ChunkReassembler)
        ensures
            r.id() == msg_id,
            r@ == (Assembly { total, chunks: Map::empty() }),
    {
        let r = ChunkReassembler { chunks: HashMap::new(), total, msg_id };
        assert(r@.chunks =~= Map::empty());
        r
    }

    /// Get the message ID.
    pub fn msg_id(&self) -> (r: u64)
        ensures
            r == self.id(),
    {
        self.msg_id
    }

    /// The total number of chunks expected.
    pub fn total(&self) -> (r: u64)
        ensures
            r == self@.total,
    {
        self.total
    }

    /// Insert a chunk into the reassembler.
    ///
    /// Returns `true` if this was the final chunk needed to complete the message.
    pub fn insert(&mut self, seq_num: u64, payload: Vec<u8>) -> (r: bool)
        ensures
            final(self).id() == old(self).id(),
            final(self)@ == old(self)@.with_chunk(seq_num, payload@),
            r == final(self)@.is_complete(),
            old(self)@.chunks.dom().finite(),
            final(self)@.chunks.dom().finite(),
    {
        let ghost bytes = payload@;
        self.chunks.insert(seq_num, payload);
        assert(self@.chunks =~= old(self)@.chunks.insert(seq_num, bytes));
        assert(old(self)@.chunks.dom() =~= old(self).chunks@.dom());
        self.is_complete()
    }

    /// Check if all chunks have been received.
    pub fn is_complete(&self) -> (r: bool)
        ensures
            r == self@.is_complete(),
    {
        assert(self@.chunks.dom() =~= self.chunks@.dom());
        if (self.chunks.len() as u64) < self.total {
            proof {
                if self@.is_complete() {
                    lemma_has_all_len(self@.chunks, self.total as nat);
                }
            }
            return false;
        }
        let mut i: u64 = 0;
        while i < self.total
            invariant
                i <= self.total,
                self@.total == self.total,
                forall|j: u64| j < i ==> #[trigger] self@.chunks.contains_key(j),
            decreases self.total - i,
        {
            if !self.chunks.contains_key(&i) {
                assert(!self@.chunks.contains_key(i));
                return false;
            }
            assert(self@.chunks.contains_key(i));
            i += 1;
        }
        true
    }

    /// Reassemble the complete message from all received chunks.
    pub fn reassemble(&self) -> (r: Vec<u8>)
        requires
            self@.is_complete(),
        ensures
            r@ == assembled(self@.chunks, self@.total as nat),
    {
        let mut result: Vec<u8> = Vec::new();
        let mut seq: u64 = 0;
        while seq < self.total
            invariant
                seq <= self.total,
                self@.total == self.total,
                has_all(self@.chunks, self@.total as nat),
                result@ == assembled(self@.chunks, seq as nat),
            decreases self.total - seq,
        {
            assert(self@.chunks.contains_key(seq));
            match self.chunks.get(&seq) {
                Some(payload) => {
                    let mut part = copy_bytes(payload);
                    result.append(&mut part);
                },
                None => {},
            }
            seq += 1;
        }
        result
    }

    /// Return the number of chunks received so far.
    pub fn received_count(&self) -> (r: usize)
        ensures
            self@.chunks.dom().finite(),
            r == self@.chunks.dom().len(),
    {
        assert(self@.chunks.dom() =~= self.chunks@.dom());
        self.chunks.len()
    }
}

/// The assembly that a chunk belongs to, with that chunk: the one of its
/// message, or a new one.
pub open spec fn assembly_with(
    inflight: Map<u64, Assembly>,
    id: u64,
    seq_num: u64,
    total: u64,
    payload: Seq<u8>,
) -> Assembly {
    let before = if inflight.contains_key(id) {
        inflight[id]
    } else {
        Assembly { total, chunks: Map::empty() }
    };
    before.with_chunk(seq_num, payload)
}

/// What has come in after a raw chunk, and the message that the chunk
/// completes, if any. Bytes that are no chunk change nothing.
pub open spec fn received(inflight: Map<u64, Assembly>, raw: Seq<u8>) -> (
    Map<u64, Assembly>,
    Option<Seq<u8>>,
) {
    match parsed_chunk(raw) {
        Err(_) => (inflight, None),
        Ok((id, seq, total, payload)) => {
            let a = assembly_with(inflight, id as u64, seq as u64, total as u64, payload);
            if a.is_complete() {
                (inflight.remove(id as u64), Some(assembled(a.chunks, a.total as nat)))
            } else {
                (inflight.insert(id as u64, a), None)
            }
        },
    }
}

/// What has come in after raw chunks, one after the other, and the message that
/// the last of them completes, if any.
pub open spec fn received_all(inflight: Map<u64, Assembly>, raws: Seq<Seq<u8>>) -> (
    Map<u64, Assembly>,
    Option<Seq<u8>>,
)
    decreases raws.len(),
{
    if raws.len() == 0 {
        (inflight, None)
    } else {
        received(received_all(inflight, raws.drop_last()).0, raws.last())
    }
}

/// Whether raw bytes are a chunk of a message of which something has come in.
pub open spec fn is_known(inflight: Map<u64, Assembly>, raw: Seq<u8>) -> bool {
    parsed_chunk(raw) matches Ok((id, seq, total, payload)) && inflight.contains_key(id as u64)
}

/// The counters after raw bytes were fed to a receiver: a chunk counts, and
/// what is no chunk does not.
pub open spec fn chunk_counted(c: MetricsSnapshot, raw: Seq<u8>) -> MetricsSnapshot {
    if parsed_chunk(raw) is Ok {
        MetricsSnapshot { chunks_received: c.chunks_received.wrapping_add(1), ..c }
    } else {
        c
    }
}

/// A chunk-aware receiver that collects chunks and reassembles complete
/// messages.
///
/// Tracks in-flight reassemblers by message ID. When all chunks for a
/// message arrive, the reassembled bytes are returned.
#[derive(Debug)]
pub struct ChunkReceiver {
    inflight: HashMap<u64, ChunkReassembler>,
    metrics: Option<TransportMetrics>,
}

impl View for ChunkReceiver {
    type V = Map<u64, Assembly>;

    closed spec fn view(&self) -> Map<u64, Assembly> {
        self.inflight@.map_values(|r: ChunkReassembler| r@)
    }
}

impl ChunkReceiver {
    /// The counters that the receiver keeps, if any.
    pub closed spec fn counters(&self) -> Option<MetricsSnapshot> {
        match self.metrics {
            Some(m) => Some(m@),
            None => None,
        }
    }

    /// Create a new chunk receiver.
    pub fn new() -> (r: ChunkReceiver)
        ensures
            r@ == Map::<u64, Assembly>::empty(),
            r.counters() is None,
    {
        let r = ChunkReceiver { inflight: HashMap::new(), metrics: None };
        assert(r@ =~= Map::<u64, Assembly>::empty());
        r
    }

    /// Attach a metrics instance for tracking chunk operations.
    pub fn with_metrics(self, metrics: TransportMetrics) -> (r: ChunkReceiver)
        ensures
            r@ == self@,
            r.counters() == Some(metrics@),
    {
        ChunkReceiver { inflight: self.inflight, metrics: Some(metrics) }
    }

    /// The counters of the attached metrics.
    pub fn metrics(&self) -> (r: Option<MetricsSnapshot>)
        ensures
            r == self.counters(),
    {
        match &self.metrics {
            Some(m) => Some(m.snapshot()),
            None => None,
        }
    }

    /// Feed a raw chunk into the receiver.
    ///
    /// Returns `Some(reassembled_bytes)` when all chunks for a message
    /// have been received, or `None` if more chunks are still needed.
    pub fn receive(&mut self, raw: &[u8]) -> (r: ZhtResult<Option<Vec<u8>>>)
        ensures
            match parsed_chunk(raw@) {
                Err(e) => {
                    &&& r matches Err(error) && error@ == e
                    &&& *final(self) == *old(self)
                },
                Ok(_) => {
                    let (inflight, message) = received(old(self)@, raw@);
                    &&& final(self)@ == inflight
                    &&& match message {
                        Some(bytes) => r matches Ok(Some(v)) && v@ == bytes,
                        None => r == Ok::<Option<Vec<u8>>, ZhtError>(None),
                    }
                },
            },
            final(self).counters() == (match old(self).counters() {
                Some(c) => Some(chunk_counted(c, raw@)),
                None => None,
            }),
            old(self)@.dom().finite(),
            final(self)@.dom().finite(),
            final(self)@.dom().len() == old(self)@.dom().len() + (match r {
                Err(_) => 0,
                Ok(None) => if is_known(old(self)@, raw@) { 0int } else { 1 },
                Ok(Some(_)) => if is_known(old(self)@, raw@) { -1int } else { 0 },
            }),
    {
        proof {
            assert(self@.dom() =~= self.inflight@.dom());
            law_receive_changes_inflight_count(self@, raw@);
        }
        let (msg_id, seq_num, total, payload) = match parse_chunk(raw) {
            Ok(parts) => parts,
            Err(e) => {
                return Err(e);
            },
        };
        match &mut self.metrics {
            Some(m) => {
                m.inc_chunks_received();
            },
            None => {},
        }
        let mut reassembler = match self.inflight.remove(&msg_id) {
            Some(known) => known,
            None => ChunkReassembler::new(msg_id, total, 0),
        };
        let is_complete = reassembler.insert(seq_num, copy_bytes(payload));
        let ghost a = assembly_with(old(self)@, msg_id, seq_num, total, payload@);
        assert(reassembler@ == a);
        assert(self@ =~= old(self)@.remove(msg_id));
        if is_complete {
            Ok(Some(reassembler.reassemble()))
        } else {
            self.inflight.insert(msg_id, reassembler);
            assert(self@ =~= old(self)@.insert(msg_id, a));
            Ok(None)
        }
    }

    /// Return the number of in-flight (incomplete) messages.
    pub fn inflight_count(&self) -> (r: usize)
        ensures
            self@.dom().finite(),
            r == self@.dom().len(),
    {
        assert(self@.dom() =~= self.inflight@.dom());
        self.inflight.len()
    }

    /// Discard all in-flight reassemblers (e.g., on connection close).
    pub fn clear(&mut self)
        ensures
            final(self)@ == Map::<u64, Assembly>::empty(),
            final(self).counters() == old(self).counters(),
    {
        self.inflight.clear();
        assert(self@ =~= Map::<u64, Assembly>::empty());
    }
}

impl Default for ChunkReceiver {
    fn default() -> (r: ChunkReceiver)
        ensures
            r@ == Map::<u64, Assembly>::empty(),
            r.counters() is None,
    {
        ChunkReceiver::new()
    }
}

// ── What is split can be put together ───────────────────────────────────

proof fn lemma_decimal_ascii(n: nat)
    ensures
        is_ascii_chars(decimal(n)),
        is_trimmed(decimal(n)),
        decimal(n).len() > 0,
{
    lemma_decimal_digits(n);
    assert(is_digit(decimal(n)[0]));
    assert(is_digit(decimal(n).last()));
}

/// A field of the header that was written is read back.
proof fn lemma_field_round_trip(bytes: Seq<u8>, text: Seq<char>, name: Seq<char>, n: nat, max: nat)
    requires
        bytes == encode_utf8(text),
        trim(text) == decimal(n),
        n <= max,
    ensures
        number_field(bytes, name, max) == Ok::<nat, ErrorView>(n),
{
    encode_utf8_valid_utf8(text);
    encode_utf8_decode_utf8(text);
    law_decimal_round_trip(n, max);
}

/// The part of an encoded ASCII text is the encoding of that part.
proof fn lemma_ascii_part(s: Seq<char>, a: int, b: int)
    requires
        is_ascii_chars(s),
        0 <= a <= b <= s.len(),
    ensures
        encode_utf8(s).len() == s.len(),
        encode_utf8(s).subrange(a, b) == encode_utf8(s.subrange(a, b)),
{
    is_ascii_chars_encode_utf8(s);
    let part = s.subrange(a, b);
    assert forall|i: int| 0 <= i < part.len() implies '\0' <= #[trigger] part[i] <= '\u{7f}' by {
        assert(part[i] == s[a + i]);
    }
    is_ascii_chars_encode_utf8(part);
    assert forall|i: int| 0 <= i < part.len() implies encode_utf8(s).subrange(a, b)[i] == encode_utf8(part)[i] by {
        assert(encode_utf8(s)[a + i] == s[a + i] as u8);
        assert(encode_utf8(part)[i] == part[i] as u8);
    }
    assert(encode_utf8(s).subrange(a, b) =~= encode_utf8(part));
}

proof fn lemma_fixed_field(n: nat, width: nat)
    ensures
        fixed_field(n, width).len() == width,
        is_ascii_chars(fixed_field(n, width)),
{
    lemma_decimal_ascii(n);
}

/// A field that was filled with asterisks is no number.
proof fn lemma_overlong_field(bytes: Seq<u8>, n: nat, width: nat, name: Seq<char>, max: nat)
    requires
        width > 0,
        decimal(n).len() > width,
        bytes == encode_utf8(fixed_field(n, width)),
    ensures
        number_field(bytes, name, max) is Err,
{
    let text = fixed_field(n, width);
    encode_utf8_valid_utf8(text);
    encode_utf8_decode_utf8(text);
    assert(text[0] == '*' && text.last() == '*');
    lemma_trim_trimmed(text);
    assert(!is_digit(text[0]));
}

/// The header of a chunk and its four fields.
proof fn lemma_header(id: u64, seq: nat, total: nat, payload: Seq<u8>)
    ensures
        ({
            let h = encode_utf8(chunk_header(id as nat, seq, total, payload.len()));
            let raw = chunk_bytes(id as nat, seq, total, payload);
            &&& h.len() == 38
            &&& raw.len() == 38 + payload.len()
            &&& raw[0] >= 0x20
            &&& raw.skip(38) == payload
            &&& raw.subrange(0, 20) == encode_utf8(right_aligned(decimal(id as nat), 20))
            &&& raw.subrange(20, 27) == encode_utf8(fixed_field(seq, 7))
            &&& raw.subrange(27, 34) == encode_utf8(fixed_field(total, 7))
            &&& raw.subrange(34, 38) == encode_utf8(fixed_field(payload.len(), 4))
        }),
{
    let f1 = right_aligned(decimal(id as nat), 20);
    let f2 = fixed_field(seq, 7);
    let f3 = fixed_field(total, 7);
    let f4 = fixed_field(payload.len(), 4);
    lemma_decimal_len(id as nat);
    lemma_decimal_ascii(id as nat);
    lemma_decimal_digits(id as nat);
    lemma_fixed_field(seq, 7);
    lemma_fixed_field(total, 7);
    lemma_fixed_field(payload.len(), 4);
    assert(f1.len() == 20);
    assert(is_ascii_chars(f1));
    let h = chunk_header(id as nat, seq, total, payload.len());
    assert(h == f1 + f2 + f3 + f4);
    assert(is_ascii_chars(h));
    assert(h.len() == 38);
    assert(f1[0] == ' ' || is_digit(f1[0])) by {
        if decimal(id as nat).len() == 20 {
            assert(f1[0] == decimal(id as nat)[0]);
        }
    }
    assert(h[0] == f1[0]);
    assert(h.subrange(0, 20) =~= f1);
    assert(h.subrange(20, 27) =~= f2);
    assert(h.subrange(27, 34) =~= f3);
    assert(h.subrange(34, 38) =~= f4);
    lemma_ascii_part(h, 0, 20);
    lemma_ascii_part(h, 20, 27);
    lemma_ascii_part(h, 27, 34);
    lemma_ascii_part(h, 34, 38);
    is_ascii_chars_encode_utf8(h);
    let raw = chunk_bytes(id as nat, seq, total, payload);
    assert(raw[0] == h[0] as u8);
    assert(raw.subrange(0, 20) =~= encode_utf8(h).subrange(0, 20));
    assert(raw.subrange(20, 27) =~= encode_utf8(h).subrange(20, 27));
    assert(raw.subrange(27, 34) =~= encode_utf8(h).subrange(27, 34));
    assert(raw.subrange(34, 38) =~= encode_utf8(h).subrange(34, 38));
    assert(raw.skip(38) =~= payload);
}

/// Every chunk carries a header of 38 bytes, and its payload behind it.
pub proof fn law_header_has_fixed_size(id: u64, seq: nat, total: nat, payload: Seq<u8>)
    ensures
        encode_utf8(chunk_header(id as nat, seq, total, payload.len())).len() == CHUNK_HEADER_SIZE,
        chunk_bytes(id as nat, seq, total, payload).len() == CHUNK_HEADER_SIZE + payload.len(),
        chunk_bytes(id as nat, seq, total, payload).skip(CHUNK_HEADER_SIZE as int) == payload,
{
    lemma_header(id, seq, total, payload);
}

/// The first byte of a chunk is a space or a digit.
pub proof fn lemma_chunk_first_byte(id: u64, seq: nat, total: nat, payload: Seq<u8>)
    ensures
        chunk_bytes(id as nat, seq, total, payload)[0] >= 0x20,
{
    lemma_header(id, seq, total, payload);
}

/// A chunk with a number that its field has no room for is not misread: it is
/// refused.
pub proof fn law_overlong_chunk_is_refused(id: u64, seq: nat, total: nat, payload: Seq<u8>)
    requires
        seq >= 10_000_000 || total >= 10_000_000 || payload.len() >= 10_000,
    ensures
        parsed_chunk(chunk_bytes(id as nat, seq, total, payload)) is Err,
{
    let raw = chunk_bytes(id as nat, seq, total, payload);
    lemma_header(id, seq, total, payload);
    lemma_decimal_len(seq);
    lemma_decimal_len(total);
    lemma_decimal_len(payload.len());
    if seq >= 10_000_000 {
        lemma_overlong_field(raw.subrange(20, 27), seq, 7, "seq_num"@, u64::MAX as nat);
    } else if total >= 10_000_000 {
        lemma_overlong_field(raw.subrange(27, 34), total, 7, "total"@, u64::MAX as nat);
    } else {
        lemma_overlong_field(
            raw.subrange(34, 38),
            payload.len(),
            4,
            "payload_size"@,
            usize::MAX as nat,
        );
    }
}

/// Parsing a chunk gives back the id, the numbers and the payload that it was
/// made of, as far as the fields of the header have room: numbers of seven
/// digits, and payloads whose length takes four.
pub proof fn law_chunk_round_trip(id: u64, seq: u64, total: u64, payload: Seq<u8>)
    requires
        seq < 10_000_000,
        total < 10_000_000,
        payload.len() < 10_000,
    ensures
        parsed_chunk(chunk_bytes(id as nat, seq as nat, total as nat, payload)) == Ok::<_, ErrorView>(
            (id as nat, seq as nat, total as nat, payload),
        ),
{
    let raw = chunk_bytes(id as nat, seq as nat, total as nat, payload);
    let f1 = right_aligned(decimal(id as nat), 20);
    let f2 = fixed_field(seq as nat, 7);
    let f3 = fixed_field(total as nat, 7);
    let f4 = fixed_field(payload.len(), 4);
    lemma_header(id, seq as nat, total as nat, payload);
    lemma_decimal_len(seq as nat);
    lemma_decimal_len(total as nat);
    lemma_decimal_len(payload.len());
    lemma_decimal_ascii(id as nat);
    lemma_decimal_ascii(seq as nat);
    lemma_decimal_ascii(total as nat);
    lemma_decimal_ascii(payload.len());
    lemma_trim_aligned(decimal(id as nat), 20);
    lemma_trim_aligned(decimal(seq as nat), 7);
    lemma_trim_aligned(decimal(total as nat), 7);
    lemma_trim_aligned(decimal(payload.len()), 4);
    lemma_field_round_trip(raw.subrange(0, 20), f1, "UUID"@, id as nat, u64::MAX as nat);
    lemma_field_round_trip(raw.subrange(20, 27), f2, "seq_num"@, seq as nat, u64::MAX as nat);
    lemma_field_round_trip(raw.subrange(27, 34), f3, "total"@, total as nat, u64::MAX as nat);
    lemma_field_round_trip(
        raw.subrange(34, 38),
        f4,
        "payload_size"@,
        payload.len(),
        usize::MAX as nat,
    );
    assert(raw.subrange(38, 38 + payload.len() as int) =~= payload);
}

proof fn lemma_assembled_prefix(data: Seq<u8>, size: nat, chunks: Map<u64, Seq<u8>>, n: nat)
    requires
        data.len() > 0 ==> size > 0,
        n <= piece_count(data.len(), size),
        piece_count(data.len(), size) <= u64::MAX,
        forall|i: u64| i < n ==> #[trigger] chunks[i] == piece(data, size, i as nat),
    ensures
        n < piece_count(data.len(), size) ==> n * size <= data.len() && assembled(chunks, n)
            == data.take((n * size) as int),
        n == piece_count(data.len(), size) ==> assembled(chunks, n) == data,
    decreases n,
{
    if n == 0 {
        assert(0 * size == 0) by (nonlinear_arith);
        assert(assembled(chunks, n) =~= data.take(0));
    } else {
        let k = (n - 1) as nat;
        lemma_assembled_prefix(data, size, chunks, k);
        lemma_pieces(data.len(), size, k);
        assert(chunks[k as u64] == piece(data, size, k));
        let end = piece_end(data.len(), size, k) as int;
        assert(data.take((k * size) as int) + piece(data, size, k) =~= data.take(end));
        if n == piece_count(data.len(), size) {
            assert(data.take(end) =~= data);
        }
    }
}

/// Whatever the order in which its pieces came in, and whatever else came in
/// under other numbers, a message whose pieces are all there is put together as
/// it was.
pub proof fn law_pieces_reassemble(data: Seq<u8>, size: nat, chunks: Map<u64, Seq<u8>>)
    requires
        data.len() > 0 ==> size > 0,
        piece_count(data.len(), size) <= u64::MAX,
        has_all(chunks, piece_count(data.len(), size)),
        forall|i: u64|
            i < piece_count(data.len(), size) ==> #[trigger] chunks[i] == piece(data, size, i as nat),
    ensures
        assembled(chunks, piece_count(data.len(), size)) == data,
{
    lemma_assembled_prefix(data, size, chunks, piece_count(data.len(), size));
}

/// Where the chunks with all numbers below `total` are there, there are at
/// least that many.
proof fn lemma_has_all_len(chunks: Map<u64, Seq<u8>>, total: nat)
    requires
        total <= u64::MAX,
        chunks.dom().finite(),
        has_all(chunks, total),
    ensures
        chunks.dom().len() >= total,
{
    let all = Set::new(|i: u64| i < total);
    lemma_below_len(total);
    assert(all.subset_of(chunks.dom())) by {
        assert forall|i: u64| all.contains(i) implies chunks.dom().contains(i) by {
            assert(chunks.contains_key(i));
        }
    }
    vstd::set_lib::lemma_len_subset(all, chunks.dom());
}

/// `n` different numbers below `n` are all of them.
proof fn lemma_all_numbers(s: Set<u64>, n: nat)
    requires
        n <= u64::MAX,
        s.finite(),
        s.len() == n,
        forall|i: u64| #[trigger] s.contains(i) ==> i < n,
    ensures
        forall|i: u64| i < n ==> #[trigger] s.contains(i),
{
    let all = Set::new(|i: u64| i < n);
    lemma_below_len(n);
    assert(s.subset_of(all));
    vstd::set_lib::lemma_subset_equality(s, all);
}

proof fn lemma_below_len(n: nat)
    requires
        n <= u64::MAX + 1,
    ensures
        Set::new(|i: u64| i < n).finite(),
        Set::new(|i: u64| i < n).len() == n,
    decreases n,
{
    let all = Set::new(|i: u64| i < n);
    if n == 0 {
        assert(all =~= Set::empty());
    } else {
        let k = (n - 1) as nat;
        lemma_below_len(k);
        assert(all =~= Set::new(|i: u64| i < k).insert(k as u64));
    }
}

/// The pieces with the given numbers.
pub open spec fn pieces_at(data: Seq<u8>, size: nat, numbers: Seq<u64>) -> Map<u64, Seq<u8>> {
    Map::new(|i: u64| numbers.contains(i), |i: u64| piece(data, size, i as nat))
}

/// The raw chunks with the given numbers of a message.
pub open spec fn chunks_at(id: u64, data: Seq<u8>, size: nat, numbers: Seq<u64>) -> Seq<Seq<u8>> {
    let total = piece_count(data.len(), size);
    Seq::new(
        numbers.len(),
        |k: int|
            chunk_bytes(id as nat, numbers[k] as nat, total, piece(data, size, numbers[k] as nat)),
    )
}

/// Whether a message can be sent in chunks: the fields of the header have room
/// for the number of chunks, which takes seven digits at most, and for the
/// length of each payload, which takes four.
pub open spec fn is_chunkable(len: nat, size: nat) -> bool {
    &&& len > 0 ==> size > 0
    &&& size < 10_000 || len < 10_000
    &&& piece_count(len, size) < 10_000_000
}

proof fn lemma_pieces_push(data: Seq<u8>, size: nat, numbers: Seq<u64>, i: u64)
    ensures
        pieces_at(data, size, numbers.push(i)) == pieces_at(data, size, numbers).insert(
            i,
            piece(data, size, i as nat),
        ),
{
    let all = numbers.push(i);
    assert(all[numbers.len() as int] == i);
    assert forall|j: u64| all.contains(j) implies numbers.contains(j) || j == i by {
        let k = choose|k: int| 0 <= k < all.len() && all[k] == j;
        if k < numbers.len() {
            assert(numbers[k] == j);
        }
    }
    assert forall|j: u64| numbers.contains(j) implies all.contains(j) by {
        let k = choose|k: int| 0 <= k < numbers.len() && numbers[k] == j;
        assert(all[k] == j);
    }
    assert(pieces_at(data, size, all) =~= pieces_at(data, size, numbers).insert(
        i,
        piece(data, size, i as nat),
    ));
}

proof fn lemma_pieces_len(data: Seq<u8>, size: nat, numbers: Seq<u64>)
    requires
        numbers.no_duplicates(),
    ensures
        pieces_at(data, size, numbers).dom().finite(),
        pieces_at(data, size, numbers).dom().len() == numbers.len(),
{
    assert(pieces_at(data, size, numbers).dom() =~= numbers.to_set());
    numbers.unique_seq_to_set();
    vstd::seq_lib::seq_to_set_is_finite(numbers);
}

/// What has come in after the first `n` chunks of a message.
proof fn lemma_received_so_far(
    inflight: Map<u64, Assembly>,
    id: u64,
    data: Seq<u8>,
    size: nat,
    numbers: Seq<u64>,
    n: int,
)
    requires
        is_chunkable(data.len(), size),
        !inflight.contains_key(id),
        numbers.no_duplicates(),
        numbers.len() <= piece_count(data.len(), size),
        forall|k: int| 0 <= k < numbers.len() ==> #[trigger] numbers[k] < piece_count(data.len(), size),
        0 <= n <= numbers.len(),
    ensures
        ({
            let total = piece_count(data.len(), size);
            let so_far = received_all(inflight, chunks_at(id, data, size, numbers).take(n));
            let a = Assembly { total: total as u64, chunks: pieces_at(data, size, numbers.take(n)) };
            if n == 0 {
                so_far == (inflight, None::<Seq<u8>>)
            } else if n < total {
                so_far == (inflight.insert(id, a), None::<Seq<u8>>)
            } else {
                so_far == (inflight, Some(data))
            }
        }),
    decreases n,
{
    let total = piece_count(data.len(), size);
    let raws = chunks_at(id, data, size, numbers);
    if n > 0 {
        let k = n - 1;
        let i = numbers[k];
        let payload = piece(data, size, i as nat);
        lemma_received_so_far(inflight, id, data, size, numbers, k);
        assert(raws.take(n).drop_last() =~= raws.take(k));
        let before = received_all(inflight, raws.take(k)).0;
        lemma_pieces(data.len(), size, i as nat);
        law_chunk_round_trip(id, i, total as u64, payload);
        assert(raws.take(n).last() == chunk_bytes(id as nat, i as nat, total, payload));
        let earlier = pieces_at(data, size, numbers.take(k));
        let now = pieces_at(data, size, numbers.take(n));
        assert(numbers.take(n) =~= numbers.take(k).push(i));
        lemma_pieces_push(data, size, numbers.take(k), i);
        if k == 0 {
            assert(earlier =~= Map::empty());
        }
        let a = assembly_with(before, id, i, total as u64, payload);
        assert(a == Assembly { total: total as u64, chunks: now });
        lemma_pieces_len(data, size, numbers.take(n));
        assert(before.insert(id, a) =~= inflight.insert(id, a));
        assert(before.remove(id) =~= inflight);
        if n == total {
            assert forall|j: u64| #[trigger] now.dom().contains(j) implies j < total by {
                let p = choose|p: int| 0 <= p < n && numbers.take(n)[p] == j;
                assert(numbers[p] == j);
            }
            lemma_all_numbers(now.dom(), total);
            assert forall|j: u64| j < total implies #[trigger] now.contains_key(j) by {
                assert(now.dom().contains(j));
            }
            assert forall|j: u64| j < total implies #[trigger] now[j] == piece(data, size, j as nat) by {
                assert(now.contains_key(j));
            }
            law_pieces_reassemble(data, size, now);
        } else if has_all(now, total) {
            lemma_has_all_len(now, total);
        }
    } else {
        assert(raws.take(0) =~= Seq::empty());
    }
}

/// The chunks of a message, in whatever order they come in, give the message
/// when the last of them is there and nothing before, and leave nothing behind.
pub proof fn law_chunks_deliver_message(
    inflight: Map<u64, Assembly>,
    id: u64,
    data: Seq<u8>,
    size: nat,
    numbers: Seq<u64>,
)
    requires
        is_chunkable(data.len(), size),
        !inflight.contains_key(id),
        numbers.no_duplicates(),
        numbers.len() == piece_count(data.len(), size),
        forall|k: int| 0 <= k < numbers.len() ==> #[trigger] numbers[k] < piece_count(data.len(), size),
    ensures
        received_all(inflight, chunks_at(id, data, size, numbers)) == (inflight, Some(data)),
        forall|n: int|
            0 <= n < numbers.len() ==> (#[trigger] received_all(
                inflight,
                chunks_at(id, data, size, numbers).take(n),
            )).1 is None,
{
    let raws = chunks_at(id, data, size, numbers);
    assert(raws.take(raws.len() as int) =~= raws);
    lemma_received_so_far(inflight, id, data, size, numbers, numbers.len() as int);
    assert forall|n: int| 0 <= n < numbers.len() implies (#[trigger] received_all(
        inflight,
        raws.take(n),
    )).1 is None by {
        lemma_received_so_far(inflight, id, data, size, numbers, n);
    }
}

// ── Messages that come in at the same time ──────────────────────────────

/// Whether raw bytes are a chunk of the message `id`.
pub open spec fn is_own(raw: Seq<u8>, id: u64) -> bool {
    parsed_chunk(raw) matches Ok((i, seq, total, payload)) && i == id
}

/// Those of the raw bytes that are chunks of the message `id`, in order.
pub open spec fn own_chunks(raws: Seq<Seq<u8>>, id: u64) -> Seq<Seq<u8>>
    decreases raws.len(),
{
    if raws.len() == 0 {
        Seq::empty()
    } else {
        let before = own_chunks(raws.drop_last(), id);
        if is_own(raws.last(), id) {
            before.push(raws.last())
        } else {
            before
        }
    }
}

proof fn lemma_parsed_id(raw: Seq<u8>)
    ensures
        parsed_chunk(raw) matches Ok((id, seq, total, payload)) ==> id <= u64::MAX && seq <= u64::MAX
            && total <= u64::MAX,
{
}

/// Chunks of other messages, and what is no chunk, make no difference to a
/// message: what has come in of it, and whether its last chunk completes it, is
/// as if its own chunks had come alone.
pub proof fn law_other_messages_do_not_matter(
    inflight: Map<u64, Assembly>,
    raws: Seq<Seq<u8>>,
    id: u64,
)
    ensures
        ({
            let all = received_all(inflight, raws);
            let own = received_all(inflight, own_chunks(raws, id));
            &&& all.0.contains_key(id) == own.0.contains_key(id)
            &&& all.0.contains_key(id) ==> all.0[id] == own.0[id]
            &&& raws.len() > 0 && is_own(raws.last(), id) ==> all.1 == own.1
        }),
    decreases raws.len(),
{
    if raws.len() > 0 {
        let before = raws.drop_last();
        let own_before = own_chunks(before, id);
        law_other_messages_do_not_matter(inflight, before, id);
        lemma_parsed_id(raws.last());
        if is_own(raws.last(), id) {
            assert(own_before.push(raws.last()).drop_last() =~= own_before);
        }
    }
}

proof fn lemma_own_prefix(raws: Seq<Seq<u8>>, id: u64, n: int)
    requires
        0 <= n <= raws.len(),
    ensures
        ({
            let part = own_chunks(raws.take(n), id);
            let all = own_chunks(raws, id);
            &&& part.len() <= all.len()
            &&& part == all.take(part.len() as int)
            &&& n < raws.len() && is_own(raws.last(), id) ==> part.len() < all.len()
        }),
    decreases raws.len(),
{
    let part = own_chunks(raws.take(n), id);
    let all = own_chunks(raws, id);
    if n == raws.len() {
        assert(raws.take(n) =~= raws);
        assert(all.take(all.len() as int) =~= all);
    } else {
        let before = raws.drop_last();
        lemma_own_prefix(before, id, n);
        assert(before.take(n) =~= raws.take(n));
        assert(all.take(part.len() as int) =~= own_chunks(before, id).take(part.len() as int));
    }
}

/// The chunks of a message give the message when the last of them is there, and
/// nothing before, also while other messages and other bytes come in between.
pub proof fn law_chunks_deliver_among_others(
    inflight: Map<u64, Assembly>,
    raws: Seq<Seq<u8>>,
    id: u64,
    data: Seq<u8>,
    size: nat,
    numbers: Seq<u64>,
)
    requires
        is_chunkable(data.len(), size),
        !inflight.contains_key(id),
        numbers.no_duplicates(),
        numbers.len() == piece_count(data.len(), size),
        forall|k: int| 0 <= k < numbers.len() ==> #[trigger] numbers[k] < piece_count(data.len(), size),
        own_chunks(raws, id) == chunks_at(id, data, size, numbers),
        raws.len() > 0,
        is_own(raws.last(), id),
    ensures
        received_all(inflight, raws).1 == Some(data),
        !received_all(inflight, raws).0.contains_key(id),
        forall|n: int|
            0 < n < raws.len() && is_own(raws[n - 1], id) ==> (#[trigger] received_all(
                inflight,
                raws.take(n),
            )).1 is None,
{
    law_other_messages_do_not_matter(inflight, raws, id);
    law_chunks_deliver_message(inflight, id, data, size, numbers);
    assert forall|n: int| 0 < n < raws.len() && is_own(raws[n - 1], id) implies (
    #[trigger] received_all(inflight, raws.take(n))).1 is None by {
        law_other_messages_do_not_matter(inflight, raws.take(n), id);
        lemma_own_prefix(raws, id, n);
        assert(raws.take(n).last() == raws[n - 1]);
        let k = own_chunks(raws.take(n), id).len() as int;
        assert(received_all(inflight, chunks_at(id, data, size, numbers).take(k)).1 is None);
    }
}

/// How many messages are under way after raw bytes: as many as before where they
/// are no chunk; where they complete a message, one less if something of it had
/// come in before; and where they do not, one more if nothing of it had.
pub proof fn law_receive_changes_inflight_count(inflight: Map<u64, Assembly>, raw: Seq<u8>)
    requires
        inflight.dom().finite(),
    ensures
        ({
            let (after, message) = received(inflight, raw);
            let known = is_known(inflight, raw);
            &&& after.dom().finite()
            &&& after.dom().len() == inflight.dom().len() + (if parsed_chunk(raw) is Err {
                0int
            } else if message is None {
                if known { 0 } else { 1 }
            } else {
                if known { -1 } else { 0 }
            })
        }),
{
    match parsed_chunk(raw) {
        Ok((id, seq, total, payload)) => {
            let a = assembly_with(inflight, id as u64, seq as u64, total as u64, payload);
            assert(inflight.insert(id as u64, a).dom() =~= inflight.dom().insert(id as u64));
            assert(inflight.remove(id as u64).dom() =~= inflight.dom().remove(id as u64));
        },
        Err(_) => {},
    }
}

/// How many chunks of a message are there after one more came in: as many as
/// before where its number was there already, and otherwise one more.
pub proof fn law_insert_changes_received_count(a: Assembly, seq_num: u64, payload: Seq<u8>)
    requires
        a.chunks.dom().finite(),
    ensures
        a.with_chunk(seq_num, payload).chunks.dom().finite(),
        a.with_chunk(seq_num, payload).chunks.dom().len() == a.chunks.dom().len() + (
        if a.chunks.contains_key(seq_num) {
            0int
        } else {
            1
        }),
{
}

// ── Counting ────────────────────────────────────────────────────────────

/// How many of the raw bytes are chunks.
pub open spec fn chunk_count(raws: Seq<Seq<u8>>) -> nat
    decreases raws.len(),
{
    if raws.len() == 0 {
        0
    } else {
        chunk_count(raws.drop_last()) + (if parsed_chunk(raws.last()) is Ok {
            1nat
        } else {
            0nat
        })
    }
}

/// The counters after raw bytes were fed to a receiver, one after the other.
pub open spec fn chunks_counted(c: MetricsSnapshot, raws: Seq<Seq<u8>>) -> MetricsSnapshot
    decreases raws.len(),
{
    if raws.len() == 0 {
        c
    } else {
        chunk_counted(chunks_counted(c, raws.drop_last()), raws.last())
    }
}

/// Over any number of calls a receiver counts the chunks among what it is fed,
/// those that came before included, and no other counter changes.
pub proof fn law_receiver_counts_chunks(c: MetricsSnapshot, raws: Seq<Seq<u8>>)
    ensures
        chunks_counted(c, raws) == (MetricsSnapshot {
            chunks_received: ((c.chunks_received + chunk_count(raws)) % 0x1_0000_0000_0000_0000) as u64,
            ..c
        }),
    decreases raws.len(),
{
    if raws.len() > 0 {
        law_receiver_counts_chunks(c, raws.drop_last());
        let before: int = c.chunks_received + chunk_count(raws.drop_last());
        vstd::arithmetic::div_mod::lemma_add_mod_noop(before, 1, 0x1_0000_0000_0000_0000);
    }
}

// ── The shape of chunks ─────────────────────────────────────────────────

/// A message has as few pieces as hold it: all of them but the last one are full,
/// the last one is not empty, and none is larger than the size. Each piece begins
/// where the one before it ends.
pub proof fn law_pieces_are_full(data: Seq<u8>, size: nat, i: nat)
    requires
        data.len() > 0 ==> size > 0,
        i < piece_count(data.len(), size),
    ensures
        data.len() == 0 ==> piece_count(data.len(), size) == 1 && piece(data, size, i).len() == 0,
        data.len() > 0 ==> (piece_count(data.len(), size) - 1) * size < data.len() <= piece_count(
            data.len(),
            size,
        ) * size,
        i + 1 < piece_count(data.len(), size) ==> piece(data, size, i).len() == size,
        data.len() > 0 ==> 0 < piece(data, size, i).len() <= size,
        forall|k: int|
            0 <= k < piece(data, size, i).len() ==> #[trigger] piece(data, size, i)[k] == data[(i
                * size) as int + k],
{
    lemma_pieces(data.len(), size, i);
    let n = piece_count(data.len(), size);
    if data.len() > 0 {
        lemma_pieces(data.len(), size, (n - 1) as nat);
        assert((n - 1) * size == n * size - size) by (nonlinear_arith);
        assert((i + 1) * size == i * size + size) by (nonlinear_arith);
    } else {
        assert(0 * size == 0) by (nonlinear_arith);
    }
}

/// The header of a chunk: the id at the right of twenty bytes, then the number of
/// the chunk, the count of chunks and the length of the payload, at the left of
/// seven, seven and four; and behind it the payload.
pub proof fn law_header_layout(id: u64, seq: nat, total: nat, payload: Seq<u8>)
    ensures
        ({
            let raw = chunk_bytes(id as nat, seq, total, payload);
            &&& raw.len() == 38 + payload.len()
            &&& raw.subrange(0, 20) == encode_utf8(right_aligned(decimal(id as nat), 20))
            &&& raw.subrange(20, 27) == encode_utf8(fixed_field(seq, 7))
            &&& raw.subrange(27, 34) == encode_utf8(fixed_field(total, 7))
            &&& raw.subrange(34, 38) == encode_utf8(fixed_field(payload.len(), 4))
            &&& raw.subrange(38, 38 + payload.len() as int) == payload
        }),
{
    lemma_header(id, seq, total, payload);
    let raw = chunk_bytes(id as nat, seq, total, payload);
    assert(raw.subrange(38, 38 + payload.len() as int) =~= raw.skip(38));
}

/// A field of the header is read as the number that its text spells, with white
/// space around it or without; anything else is refused as not received.
pub proof fn law_number_field(bytes: Seq<u8>, name: Seq<char>, max: nat)
    ensures
        valid_utf8(bytes) ==> (match parse_unsigned(trim(decode_utf8(bytes)), max) {
            Some(v) => number_field(bytes, name, max) == Ok::<nat, ErrorView>(v),
            None => number_field(bytes, name, max) == Err::<nat, _>(
                ErrorView::RecvFailed(
                    "Invalid "@ + name + " '"@ + trim(decode_utf8(bytes)) + "': "@ + number_error_text(
                        unsigned_error(trim(decode_utf8(bytes)), max),
                    ),
                ),
            ),
        }),
        !valid_utf8(bytes) ==> number_field(bytes, name, max) == Err::<nat, _>(
            ErrorView::RecvFailed("Invalid "@ + name + " encoding: "@ + utf8_error_words(bytes)),
        ),
{
}

/// A chunk is read at the places of its fields. Bytes that are too few for the
/// header or for the payload, and fields that are no numbers, are refused as not
/// received; bytes behind the payload make no difference.
pub proof fn law_chunk_fields(raw: Seq<u8>)
    ensures
        parsed_chunk(raw) matches Err(e) ==> e is RecvFailed,
        raw.len() < 38 ==> parsed_chunk(raw) == Err::<(nat, nat, nat, Seq<u8>), _>(
            ErrorView::RecvFailed(
                "Chunk too short: expected >= "@ + decimal(38) + " bytes, got "@ + decimal(raw.len()),
            ),
        ),
        raw.len() >= 38 ==> {
            let id = number_field(raw.subrange(0, 20), "UUID"@, u64::MAX as nat);
            let seq = number_field(raw.subrange(20, 27), "seq_num"@, u64::MAX as nat);
            let total = number_field(raw.subrange(27, 34), "total"@, u64::MAX as nat);
            let size = number_field(raw.subrange(34, 38), "payload_size"@, usize::MAX as nat);
            &&& parsed_chunk(raw) is Ok <==> id is Ok && seq is Ok && total is Ok && size is Ok
                && 38 + size->Ok_0 <= raw.len()
            &&& id is Err ==> parsed_chunk(raw)->Err_0 == id->Err_0
            &&& id is Ok && seq is Err ==> parsed_chunk(raw)->Err_0 == seq->Err_0
            &&& id is Ok && seq is Ok && total is Err ==> parsed_chunk(raw)->Err_0 == total->Err_0
            &&& id is Ok && seq is Ok && total is Ok && size is Err ==> parsed_chunk(raw)->Err_0
                == size->Err_0
            &&& id is Ok && seq is Ok && total is Ok && size is Ok && 38 + size->Ok_0 > raw.len()
                ==> parsed_chunk(raw)->Err_0 == ErrorView::RecvFailed(
                "Chunk payload truncated: expected "@ + decimal(size->Ok_0) + " bytes, got "@ + decimal(
                    (raw.len() - 38) as nat,
                ),
            )
            &&& parsed_chunk(raw) matches Ok((i, s, t, payload)) ==> {
                &&& i == id->Ok_0
                &&& s == seq->Ok_0
                &&& t == total->Ok_0
                &&& payload == raw.subrange(38, 38 + size->Ok_0 as int)
            }
        },
{
}

/// What has come in after a chunk: the chunks of its message that came before, with
/// this one under its number. Where all numbers of the message are there, the
/// message is put together and leaves; otherwise it waits. Other messages stay. A
/// message of which nothing came before has as many chunks as its first one says.
pub proof fn law_received_chunk(
    inflight: Map<u64, Assembly>,
    raw: Seq<u8>,
    id: u64,
    seq: u64,
    total: u64,
    payload: Seq<u8>,
    before: Assembly,
)
    requires
        parsed_chunk(raw) == Ok::<_, ErrorView>((id as nat, seq as nat, total as nat, payload)),
        inflight.contains_key(id) ==> before == inflight[id],
        !inflight.contains_key(id) ==> before == (Assembly { total, chunks: Map::empty() }),
    ensures
        (forall|k: u64|
            k < before.total ==> #[trigger] before.chunks.insert(seq, payload).contains_key(k))
            ==> received(inflight, raw) == (
            inflight.remove(id),
            Some(assembled(before.chunks.insert(seq, payload), before.total as nat)),
        ),
        !(forall|k: u64|
            k < before.total ==> #[trigger] before.chunks.insert(seq, payload).contains_key(k))
            ==> received(inflight, raw) == (
            inflight.insert(
                id,
                Assembly { total: before.total, chunks: before.chunks.insert(seq, payload) },
            ),
            None::<Seq<u8>>,
        ),
{
    let chunks = before.chunks.insert(seq, payload);
    let a = assembly_with(inflight, id, seq, total, payload);
    assert(a == Assembly { total: before.total, chunks });
}

/// The numbers of a chunk fit in 64 bits.
pub proof fn law_chunk_numbers_fit(raw: Seq<u8>)
    ensures
        parsed_chunk(raw) matches Ok((id, seq, total, payload)) ==> id <= u64::MAX && seq <= u64::MAX
            && total <= u64::MAX,
{
    lemma_parsed_id(raw);
}

/// Bytes that are no chunk change nothing and complete nothing.
pub proof fn law_no_chunk_changes_nothing(inflight: Map<u64, Assembly>, raw: Seq<u8>)
    requires
        parsed_chunk(raw) is Err,
    ensures
        received(inflight, raw) == (inflight, None::<Seq<u8>>),
{
}

/// Chunks are put together in the order of their numbers.
pub proof fn law_assembled_in_order(chunks: Map<u64, Seq<u8>>, n: u64)
    requires
        n < u64::MAX,
    ensures
        assembled(chunks, 0) == Seq::<u8>::empty(),
        assembled(chunks, n as nat + 1) == assembled(chunks, n as nat) + chunks[n],
{
}

/// A chunk of a message: its number and the count of chunks, and the header and
/// the piece with that number as its bytes.
pub proof fn law_chunk_is_piece(chunk: Chunk, id: u64, data: Seq<u8>, size: nat, i: nat)
    requires
        chunk.is_piece(id, data, size, i),
    ensures
        chunk.seq_num == i,
        chunk.total == piece_count(data.len(), size),
        chunk.data@ == chunk_bytes(
            id as nat,
            i,
            piece_count(data.len(), size),
            piece(data, size, i),
        ),
        chunk.data@.len() == 38 + piece(data, size, i).len(),
        chunk.data@.skip(38) == piece(data, size, i),
{
}

/// A message is complete exactly where a chunk is there for every number below its
/// total; a chunk more takes the place of one with the same number.
pub proof fn law_assembly(a: Assembly, seq_num: u64, payload: Seq<u8>)
    ensures
        a.is_complete() <==> forall|i: u64| i < a.total ==> #[trigger] a.chunks.contains_key(i),
        a.with_chunk(seq_num, payload) == (Assembly {
            total: a.total,
            chunks: a.chunks.insert(seq_num, payload),
        }),
{
}

/// A chunk counts once, and what is no chunk does not.
pub proof fn law_chunk_counts_once(c: MetricsSnapshot, raw: Seq<u8>)
    ensures
        parsed_chunk(raw) is Ok ==> chunk_counted(c, raw) == (MetricsSnapshot {
            chunks_received: c.chunks_received.wrapping_add(1),
            ..c
        }),
        parsed_chunk(raw) is Err ==> chunk_counted(c, raw) == c,
{
}

} // verus!
