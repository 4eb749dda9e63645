//! Client-side connections: a pool with statistics, and exchanges of messages
//! that reconnect where a connection turns out to be broken.
//!
//! An exchange is driven from outside: [`Exchange::on_event`] says what is to
//! be done next, and is told how it went. Times are nanoseconds of a monotonic
//! clock that the caller reads.

use crate::error::{ErrorView, ZhtError, ZhtResult};
use crate::framing::{counted_len, frame_len};
use crate::host_entity::address_text;
use crate::hash_util::HashUtil;
use crate::table::Table;
use crate::text::{
    contains_text, has_substring, law_substring, lowercase, to_lowercase, utf8_bytes,
};
use crate::zpack::{empty_zpack, zpack_bytes, ZPack, ZPackView};
use vstd::prelude::*;
use vstd::utf8::*;

verus! {

// ── Statistics ──────────────────────────────────────────────────────────

/// Per-node connection statistics. A counter starts again at zero after its
/// largest value.
#[derive(Debug, Clone, Copy)]
pub struct ConnectionStats {
    /// Total number of messages sent through this connection.
    pub messages_sent: u64,
    /// Total number of messages received through this connection.
    pub messages_received: u64,
    /// Total bytes sent (including 4-byte length prefix).
    pub bytes_sent: u64,
    /// Total bytes received (including 4-byte length prefix).
    pub bytes_received: u64,
    /// Number of connection-related errors encountered.
    pub errors: u64,
    /// Time of the last successful send or receive operation.
    pub last_activity: u64,
}

/// The statistics of a connection made at `now`.
pub open spec fn new_stats(now: u64) -> ConnectionStats {
    ConnectionStats {
        messages_sent: 0,
        messages_received: 0,
        bytes_sent: 0,
        bytes_received: 0,
        errors: 0,
        last_activity: now,
    }
}

impl ConnectionStats {
    /// Create statistics with zeroed counters and the given time.
    pub fn new(now: u64) -> (r: ConnectionStats)
        ensures
            r == new_stats(now),
    {
        ConnectionStats {
            messages_sent: 0,
            messages_received: 0,
            bytes_sent: 0,
            bytes_received: 0,
            errors: 0,
            last_activity: now,
        }
    }

    /// The statistics after a message of `n` bytes was sent at `now`.
    pub open spec fn after_send(self, n: u64, now: u64) -> ConnectionStats {
        ConnectionStats {
            messages_sent: self.messages_sent.wrapping_add(1),
            bytes_sent: self.bytes_sent.wrapping_add(n),
            last_activity: now,
            ..self
        }
    }

    /// The statistics after a message of `n` bytes was received at `now`.
    pub open spec fn after_receive(self, n: u64, now: u64) -> ConnectionStats {
        ConnectionStats {
            messages_received: self.messages_received.wrapping_add(1),
            bytes_received: self.bytes_received.wrapping_add(n),
            last_activity: now,
            ..self
        }
    }

    /// The statistics after an error.
    pub open spec fn after_error(self) -> ConnectionStats {
        ConnectionStats { errors: self.errors.wrapping_add(1), ..self }
    }
}

// ── Broken connections ──────────────────────────────────────────────────

/// Health-check ping opcode, which no operation has. Any response shows that
/// the connection is alive.
pub const HEALTH_CHECK_OPCODE: &'static str = "999";

/// Default health-check timeout in milliseconds.
pub const HEALTH_CHECK_TIMEOUT_MS: u64 = 5000;

/// Maximum number of automatic reconnect attempts on broken connections.
pub const MAX_RECONNECT_ATTEMPTS: u32 = 1;

/// Whether words in lower case tell of a broken connection.
pub open spec fn tells_broken(words: Seq<char>) -> bool {
    ||| has_substring(words, "broken pipe"@)
    ||| has_substring(words, "connection reset"@)
    ||| has_substring(words, "unexpected eof"@)
    ||| has_substring(words, "connection aborted"@)
}

/// Whether an error indicates a broken or reset connection.
pub open spec fn is_broken(e: ErrorView) -> bool {
    match e {
        ErrorView::SendFailed(words) => tells_broken(lowercase(words)),
        ErrorView::RecvFailed(words) => tells_broken(lowercase(words)),
        _ => false,
    }
}

/// Whether words in lower case tell of a broken connection.
pub fn words_tell_broken(words: &str) -> (r: bool)
    ensures
        r == tells_broken(words@),
{
    contains_text(words, "broken pipe") || contains_text(words, "connection reset")
        || contains_text(words, "unexpected eof") || contains_text(words, "connection aborted")
}

/// Check if a `ZhtError` indicates a broken/reset connection that warrants
/// automatic reconnection.
pub fn is_connection_broken_error(err: &ZhtError) -> (r: bool)
    ensures
        r == is_broken(err@),
{
    match err {
        ZhtError::SendFailed(msg) => words_tell_broken(&to_lowercase(msg)),
        ZhtError::RecvFailed(msg) => words_tell_broken(&to_lowercase(msg)),
        _ => false,
    }
}

/// The message that asks a server for a sign of life.
pub fn health_ping() -> (r: ZPack)
    ensures
        r@ == (ZPackView { opcode: encode_utf8(HEALTH_CHECK_OPCODE@), ..empty_zpack() }),
{
    let mut r = ZPack::default();
    r.opcode = utf8_bytes(HEALTH_CHECK_OPCODE);
    r
}

// ── The pool ────────────────────────────────────────────────────────────

/// The connections to server nodes, by `host:port`, each with its statistics.
pub struct ConnectionPool {
    connections: Table<ConnectionStats>,
}

impl View for ConnectionPool {
    type V = Map<Seq<char>, ConnectionStats>;

    closed spec fn view(&self) -> Map<Seq<char>, ConnectionStats> {
        self.connections@
    }
}

impl ConnectionPool {
    /// The connections are well-formed.
    pub closed spec fn wf(&self) -> bool {
        self.connections.wf()
    }

    /// Create an empty connection pool.
    pub fn new() -> (r: ConnectionPool)
        ensures
            r.wf(),
            r@ == Map::<Seq<char>, ConnectionStats>::empty(),
    {
        ConnectionPool { connections: Table::new() }
    }

    /// Check whether a pooled connection exists for the given `host:port`.
    pub fn is_connected(&self, host: &str, port: u16) -> (r: bool)
        ensures
            r == self@.contains_key(address_text((host@, port))),
    {
        self.connections.contains(&HashUtil::gen_base(host, port))
    }

    /// Retrieve a snapshot of the connection statistics for a specific node.
    ///
    /// Returns `None` if no pooled connection exists for the given `host:port`.
    pub fn stats(&self, host: &str, port: u16) -> (r: Option<ConnectionStats>)
        requires
            self.wf(),
        ensures
            r is Some <==> self@.contains_key(address_text((host@, port))),
            r matches Some(stats) ==> stats == self@[address_text((host@, port))],
    {
        match self.connections.get(&HashUtil::gen_base(host, port)) {
            Some(stats) => Some(*stats),
            None => None,
        }
    }

    /// Remove a specific connection from the pool.
    pub fn close_connection(&mut self, host: &str, port: u16)
        requires
            old(self).wf(),
        ensures
            final(self).wf(),
            final(self)@ == old(self)@.remove(address_text((host@, port))),
    {
        let _ = self.connections.remove(&HashUtil::gen_base(host, port));
    }

    /// Remove all connections from the pool.
    pub fn close_all(&mut self)
        ensures
            final(self).wf(),
            final(self)@ == Map::<Seq<char>, ConnectionStats>::empty(),
    {
        self.connections = Table::new();
    }

    /// Return the number of connections in the pool.
    pub fn connection_count(&self) -> (r: usize)
        requires
            self.wf(),
        ensures
            self@.dom().finite(),
            r == self@.dom().len(),
    {
        self.connections.len()
    }
}

impl Default for ConnectionPool {
    fn default() -> (r: ConnectionPool)
        ensures
            r.wf(),
            r@ == Map::<Seq<char>, ConnectionStats>::empty(),
    {
        ConnectionPool::new()
    }
}

// ── Exchanges ───────────────────────────────────────────────────────────

/// What happened since an exchange was last asked what to do.
#[derive(Debug)]
pub enum ExchangeEvent {
    /// The exchange begins.
    Started,
    /// A connection was made.
    Connected,
    /// No connection could be made, for the given reason.
    ConnectFailed(String),
    /// The message was sent.
    Sent,
    /// The message could not be sent.
    SendFailed(ZhtError),
    /// A message was received.
    Received(ZPack),
    /// No message could be received.
    ReceiveFailed(ZhtError),
}

/// What is to be done next in an exchange.
#[derive(Debug)]
pub enum ExchangeStep {
    /// Make a connection.
    Connect,
    /// Send the message over the connection.
    Send,
    /// Receive a message from the connection.
    Receive,
    /// Nothing: the exchange is over, with the response if one was wanted.
    Done(ZhtResult<Option<ZPack>>),
}

/// The mathematical value of an [`ExchangeEvent`].
pub enum EventView {
    Started,
    Connected,
    ConnectFailed(Seq<char>),
    Sent,
    SendFailed(ErrorView),
    Received(ZPackView),
    ReceiveFailed(ErrorView),
}

/// The mathematical value of an [`ExchangeStep`].
pub enum StepView {
    Connect,
    Send,
    Receive,
    Done(Result<Option<ZPackView>, ErrorView>),
}

impl View for ExchangeEvent {
    type V = EventView;

    open spec fn view(&self) -> EventView {
        match *self {
            ExchangeEvent::Started => EventView::Started,
            ExchangeEvent::Connected => EventView::Connected,
            ExchangeEvent::ConnectFailed(reason) => EventView::ConnectFailed(reason@),
            ExchangeEvent::Sent => EventView::Sent,
            ExchangeEvent::SendFailed(e) => EventView::SendFailed(e@),
            ExchangeEvent::Received(z) => EventView::Received(z@),
            ExchangeEvent::ReceiveFailed(e) => EventView::ReceiveFailed(e@),
        }
    }
}

impl View for ExchangeStep {
    type V = StepView;

    open spec fn view(&self) -> StepView {
        match *self {
            ExchangeStep::Connect => StepView::Connect,
            ExchangeStep::Send => StepView::Send,
            ExchangeStep::Receive => StepView::Receive,
            ExchangeStep::Done(Ok(Some(z))) => StepView::Done(Ok(Some(z@))),
            ExchangeStep::Done(Ok(None)) => StepView::Done(Ok(None)),
            ExchangeStep::Done(Err(e)) => StepView::Done(Err(e@)),
        }
    }
}

/// Where an exchange stands: the node, the length of the frame that is sent,
/// whether a response is wanted, and how often the connection was broken.
pub struct ExchangeView {
    pub host: Seq<char>,
    pub port: u16,
    pub frame_len: u64,
    pub wants_reply: bool,
    pub attempts: u32,
}

impl ExchangeView {
    /// The `host:port` of the node.
    pub open spec fn addr(self) -> Seq<char> {
        address_text((self.host, self.port))
    }
}

/// What comes of an error on a connection. A broken connection leaves the pool,
/// and the exchange starts again with a new one unless it did so before. Any
/// other error is counted and ends the exchange.
pub open spec fn after_failure(
    pool: Map<Seq<char>, ConnectionStats>,
    x: ExchangeView,
    error: ErrorView,
) -> (Map<Seq<char>, ConnectionStats>, u32, StepView) {
    if is_broken(error) {
        let attempts = (x.attempts + 1) as u32;
        if x.attempts >= MAX_RECONNECT_ATTEMPTS {
            (pool.remove(x.addr()), x.attempts, StepView::Done(Err(error)))
        } else {
            (pool.remove(x.addr()), attempts, StepView::Connect)
        }
    } else {
        (
            pool.insert(x.addr(), pool[x.addr()].after_error()),
            x.attempts,
            StepView::Done(Err(error)),
        )
    }
}

/// The pool, the attempts and the next step after an event.
pub open spec fn exchange_step(
    pool: Map<Seq<char>, ConnectionStats>,
    x: ExchangeView,
    event: EventView,
    now: u64,
) -> (Map<Seq<char>, ConnectionStats>, u32, StepView) {
    let addr = x.addr();
    let vanished = StepView::Done(Err(ErrorView::Internal("connection vanished from pool"@)));
    match event {
        EventView::Started => (
            pool,
            x.attempts,
            if pool.contains_key(addr) {
                StepView::Send
            } else {
                StepView::Connect
            },
        ),
        EventView::Connected => (pool.insert(addr, new_stats(now)), x.attempts, StepView::Send),
        EventView::ConnectFailed(reason) => (
            pool,
            x.attempts,
            StepView::Done(
                Err(ErrorView::ConnectionFailed { host: x.host, port: x.port, reason }),
            ),
        ),
        EventView::Sent => if pool.contains_key(addr) {
            (
                pool.insert(addr, pool[addr].after_send(x.frame_len, now)),
                x.attempts,
                if x.wants_reply {
                    StepView::Receive
                } else {
                    StepView::Done(Ok(None))
                },
            )
        } else {
            (pool, x.attempts, vanished)
        },
        EventView::SendFailed(e) => if pool.contains_key(addr) {
            after_failure(pool, x, e)
        } else {
            (pool, x.attempts, vanished)
        },
        EventView::Received(z) => if pool.contains_key(addr) {
            (
                pool.insert(addr, pool[addr].after_receive(counted_len(z), now)),
                x.attempts,
                StepView::Done(Ok(Some(z))),
            )
        } else {
            (pool, x.attempts, vanished)
        },
        EventView::ReceiveFailed(e) => if pool.contains_key(addr) {
            after_failure(pool, x, e)
        } else {
            (pool, x.attempts, vanished)
        },
    }
}

/// An exchange with a node: a message is sent, and a response received if one
/// is wanted.
///
/// If the underlying connection is broken, the stale connection is removed from
/// the pool and a new connection is established before retrying.
#[derive(Debug)]
pub struct Exchange {
    host: String,
    port: u16,
    addr: String,
    frame_len: u64,
    wants_reply: bool,
    attempts: u32,
}

impl View for Exchange {
    type V = ExchangeView;

    closed spec fn view(&self) -> ExchangeView {
        ExchangeView {
            host: self.host@,
            port: self.port,
            frame_len: self.frame_len,
            wants_reply: self.wants_reply,
            attempts: self.attempts,
        }
    }
}

impl Exchange {
    /// The address is that of the node, and no more attempts were made than
    /// allowed.
    pub closed spec fn wf(&self) -> bool {
        &&& self.addr@ == address_text((self.host@, self.port))
        &&& self.attempts <= MAX_RECONNECT_ATTEMPTS
    }

    /// An exchange that sends a message and waits for the response.
    pub fn sendrecv(host: &str, port: u16, zpack: &ZPack) -> (r: Exchange)
        ensures
            r.wf(),
            r@ == (ExchangeView {
                host: host@,
                port,
                frame_len: counted_len(zpack@),
                wants_reply: true,
                attempts: 0,
            }),
    {
        Exchange {
            host: host.to_owned(),
            port,
            addr: HashUtil::gen_base(host, port),
            frame_len: frame_len(zpack),
            wants_reply: true,
            attempts: 0,
        }
    }

    /// An exchange that sends a message without waiting for a response.
    pub fn send_only(host: &str, port: u16, zpack: &ZPack) -> (r: Exchange)
        ensures
            r.wf(),
            r@ == (ExchangeView {
                host: host@,
                port,
                frame_len: counted_len(zpack@),
                wants_reply: false,
                attempts: 0,
            }),
    {
        Exchange {
            host: host.to_owned(),
            port,
            addr: HashUtil::gen_base(host, port),
            frame_len: frame_len(zpack),
            wants_reply: false,
            attempts: 0,
        }
    }

    /// The `host:port` of the node.
    pub fn addr(&self) -> (r: &str)
        requires
            self.wf(),
        ensures
            r@ == self@.addr(),
    {
        &self.addr
    }

    fn on_failure(&mut self, pool: &mut ConnectionPool, mut stats: ConnectionStats, error: ZhtError) -> (r:
        ExchangeStep)
        requires
            old(self).wf(),
            old(pool).wf(),
            old(pool)@.contains_key(old(self)@.addr()),
            old(pool)@[old(self)@.addr()] == stats,
        ensures
            final(self).wf(),
            final(pool).wf(),
            final(self)@ == (ExchangeView { attempts: final(self)@.attempts, ..old(self)@ }),
            (final(pool)@, final(self)@.attempts, r@) == after_failure(
                old(pool)@,
                old(self)@,
                error@,
            ),
    {
        if is_connection_broken_error(&error) {
            let _ = pool.connections.remove(&self.addr);
            if self.attempts >= MAX_RECONNECT_ATTEMPTS {
                ExchangeStep::Done(Err(error))
            } else {
                self.attempts += 1;
                ExchangeStep::Connect
            }
        } else {
            stats.errors = stats.errors.wrapping_add(1);
            pool.connections.insert(self.addr.clone(), stats);
            ExchangeStep::Done(Err(error))
        }
    }

    /// Takes in what happened, and says what is to be done next.
    pub fn on_event(&mut self, pool: &mut ConnectionPool, event: ExchangeEvent, now: u64) -> (r:
        ExchangeStep)
        requires
            old(self).wf(),
            old(pool).wf(),
        ensures
            final(self).wf(),
            final(pool).wf(),
            final(self)@ == (ExchangeView { attempts: final(self)@.attempts, ..old(self)@ }),
            (final(pool)@, final(self)@.attempts, r@) == exchange_step(
                old(pool)@,
                old(self)@,
                event@,
                now,
            ),
    {
        let entry: Option<ConnectionStats> = match pool.connections.get(&self.addr) {
            Some(stats) => Some(*stats),
            None => None,
        };
        match event {
            ExchangeEvent::Started => match entry {
                Some(_) => ExchangeStep::Send,
                None => ExchangeStep::Connect,
            },
            ExchangeEvent::Connected => {
                pool.connections.insert(self.addr.clone(), ConnectionStats::new(now));
                ExchangeStep::Send
            },
            ExchangeEvent::ConnectFailed(reason) => ExchangeStep::Done(
                Err(
                    ZhtError::ConnectionFailed {
                        host: self.host.clone(),
                        port: self.port,
                        reason,
                    },
                ),
            ),
            ExchangeEvent::Sent => match entry {
                Some(mut stats) => {
                    stats.messages_sent = stats.messages_sent.wrapping_add(1);
                    stats.bytes_sent = stats.bytes_sent.wrapping_add(self.frame_len);
                    stats.last_activity = now;
                    pool.connections.insert(self.addr.clone(), stats);
                    if self.wants_reply {
                        ExchangeStep::Receive
                    } else {
                        ExchangeStep::Done(Ok(None))
                    }
                },
                None => vanished(),
            },
            ExchangeEvent::SendFailed(e) => match entry {
                Some(stats) => self.on_failure(pool, stats, e),
                None => vanished(),
            },
            ExchangeEvent::Received(z) => match entry {
                Some(mut stats) => {
                    stats.messages_received = stats.messages_received.wrapping_add(1);
                    stats.bytes_received = stats.bytes_received.wrapping_add(frame_len(&z));
                    stats.last_activity = now;
                    pool.connections.insert(self.addr.clone(), stats);
                    ExchangeStep::Done(Ok(Some(z)))
                },
                None => vanished(),
            },
            ExchangeEvent::ReceiveFailed(e) => match entry {
                Some(stats) => self.on_failure(pool, stats, e),
                None => vanished(),
            },
        }
    }
}

fn vanished() -> (r: ExchangeStep)
    ensures
        r@ == StepView::Done(Err(ErrorView::Internal("connection vanished from pool"@))),
{
    ExchangeStep::Done(Err(ZhtError::Internal("connection vanished from pool".to_owned())))
}

// ── Laws ────────────────────────────────────────────────────────────────

/// An exchange touches no connection but that to its own node.
pub proof fn law_other_connections_unchanged(
    pool: Map<Seq<char>, ConnectionStats>,
    x: ExchangeView,
    event: EventView,
    now: u64,
    other: Seq<char>,
)
    requires
        other != x.addr(),
    ensures
        exchange_step(pool, x, event, now).0.contains_key(other) == pool.contains_key(other),
        pool.contains_key(other) ==> exchange_step(pool, x, event, now).0[other] == pool[other],
{
}

/// How many connections a pool has after an event of an exchange: one more where
/// a connection was made that it did not have, one less where one broke, and
/// otherwise as many as before.
pub proof fn law_connection_count(
    pool: Map<Seq<char>, ConnectionStats>,
    x: ExchangeView,
    event: EventView,
    now: u64,
)
    requires
        pool.dom().finite(),
    ensures
        ({
            let known = pool.contains_key(x.addr());
            let breaks = match event {
                EventView::SendFailed(e) => is_broken(e),
                EventView::ReceiveFailed(e) => is_broken(e),
                _ => false,
            };
            let after = exchange_step(pool, x, event, now).0;
            &&& after.dom().finite()
            &&& after.dom().len() == pool.dom().len() + (if event is Connected && !known {
                1int
            } else if breaks && known {
                -1
            } else {
                0
            })
        }),
{
}

/// A connection that breaks leaves the pool. The first time the exchange
/// connects again; after that the error comes back to the caller.
pub proof fn law_broken_reconnects_once(
    pool: Map<Seq<char>, ConnectionStats>,
    x: ExchangeView,
    error: ErrorView,
    now: u64,
)
    requires
        pool.contains_key(x.addr()),
        is_broken(error),
        x.attempts <= MAX_RECONNECT_ATTEMPTS,
    ensures
        ({
            let (after, attempts, step) = exchange_step(pool, x, EventView::SendFailed(error), now);
            &&& exchange_step(pool, x, EventView::ReceiveFailed(error), now) == (after, attempts, step)
            &&& !after.contains_key(x.addr())
            &&& x.attempts == 0 ==> step is Connect && attempts == 1
            &&& x.attempts > 0 ==> step == StepView::Done(Err(error))
        }),
{
}

/// An error that does not tell of a broken connection keeps the connection,
/// counts against it, and ends the exchange with that error.
pub proof fn law_other_errors_keep_connection(
    pool: Map<Seq<char>, ConnectionStats>,
    x: ExchangeView,
    error: ErrorView,
    now: u64,
)
    requires
        pool.contains_key(x.addr()),
        !is_broken(error),
    ensures
        ({
            let (after, attempts, step) = exchange_step(pool, x, EventView::SendFailed(error), now);
            &&& exchange_step(pool, x, EventView::ReceiveFailed(error), now) == (after, attempts, step)
            &&& after.contains_key(x.addr())
            &&& after[x.addr()].errors == pool[x.addr()].errors.wrapping_add(1)
            &&& step == StepView::Done(Err(error))
        }),
{
}

/// An exchange over a connection that works sends, receives and ends with the
/// response, and counts one message each way.
pub proof fn law_exchange_succeeds(
    pool: Map<Seq<char>, ConnectionStats>,
    x: ExchangeView,
    response: ZPackView,
    sent_at: u64,
    received_at: u64,
)
    requires
        pool.contains_key(x.addr()),
        x.wants_reply,
    ensures
        exchange_step(pool, x, EventView::Started, sent_at).2 is Send,
        ({
            let (sent, _, step) = exchange_step(pool, x, EventView::Sent, sent_at);
            let (received, _, last) = exchange_step(
                sent,
                x,
                EventView::Received(response),
                received_at,
            );
            &&& step is Receive
            &&& last == StepView::Done(Ok(Some(response)))
            &&& received[x.addr()] == pool[x.addr()].after_send(x.frame_len, sent_at).after_receive(
                counted_len(response),
                received_at,
            )
        }),
{
}

/// The words of a broken connection are four, in any case of their letters and
/// whatever stands around them, and only a failure to send or to receive can tell
/// of one.
pub proof fn law_broken_words(
    words: Seq<char>,
    before: Seq<char>,
    behind: Seq<char>,
    error: ErrorView,
)
    ensures
        is_broken(ErrorView::SendFailed(words)) == is_broken(ErrorView::RecvFailed(words)),
        lowercase(words) == before + "broken pipe"@ + behind ==> is_broken(
            ErrorView::SendFailed(words),
        ),
        lowercase(words) == before + "connection reset"@ + behind ==> is_broken(
            ErrorView::SendFailed(words),
        ),
        lowercase(words) == before + "unexpected eof"@ + behind ==> is_broken(
            ErrorView::SendFailed(words),
        ),
        lowercase(words) == before + "connection aborted"@ + behind ==> is_broken(
            ErrorView::SendFailed(words),
        ),
        is_broken(ErrorView::SendFailed(words)) ==> has_substring(lowercase(words), "broken pipe"@)
            || has_substring(lowercase(words), "connection reset"@) || has_substring(
            lowercase(words),
            "unexpected eof"@,
        ) || has_substring(lowercase(words), "connection aborted"@),
        !(error is SendFailed) && !(error is RecvFailed) ==> !is_broken(error),
{
    law_substring(words, "broken pipe"@, before, behind);
    law_substring(words, "connection reset"@, before, behind);
    law_substring(words, "unexpected eof"@, before, behind);
    law_substring(words, "connection aborted"@, before, behind);
}

/// An exchange uses the connection that is there and asks for one where there is
/// none; one that was made is fresh; and where none could be made, the error names
/// the node.
pub proof fn law_exchange_connects(
    pool: Map<Seq<char>, ConnectionStats>,
    x: ExchangeView,
    reason: Seq<char>,
    now: u64,
)
    ensures
        exchange_step(pool, x, EventView::Started, now) == (
            pool,
            x.attempts,
            if pool.contains_key(address_text((x.host, x.port))) {
                StepView::Send
            } else {
                StepView::Connect
            },
        ),
        exchange_step(pool, x, EventView::Connected, now) == (
            pool.insert(
                address_text((x.host, x.port)),
                ConnectionStats {
                    messages_sent: 0,
                    messages_received: 0,
                    bytes_sent: 0,
                    bytes_received: 0,
                    errors: 0,
                    last_activity: now,
                },
            ),
            x.attempts,
            StepView::Send,
        ),
        exchange_step(pool, x, EventView::ConnectFailed(reason), now) == (
            pool,
            x.attempts,
            StepView::Done(
                Err(ErrorView::ConnectionFailed { host: x.host, port: x.port, reason }),
            ),
        ),
{
}

/// A message that was sent, and one that was received, is counted with the bytes of
/// its frame and the time, and nothing else of the statistics changes. Where no
/// response is wanted the exchange is over when its message was sent.
pub proof fn law_exchange_counts_messages(
    pool: Map<Seq<char>, ConnectionStats>,
    x: ExchangeView,
    z: ZPackView,
    now: u64,
)
    requires
        pool.contains_key(address_text((x.host, x.port))),
    ensures
        ({
            let addr = address_text((x.host, x.port));
            let s = pool[addr];
            &&& exchange_step(pool, x, EventView::Sent, now) == (
                pool.insert(
                    addr,
                    ConnectionStats {
                        messages_sent: s.messages_sent.wrapping_add(1),
                        messages_received: s.messages_received,
                        bytes_sent: s.bytes_sent.wrapping_add(x.frame_len),
                        bytes_received: s.bytes_received,
                        errors: s.errors,
                        last_activity: now,
                    },
                ),
                x.attempts,
                if x.wants_reply {
                    StepView::Receive
                } else {
                    StepView::Done(Ok(None))
                },
            )
            &&& exchange_step(pool, x, EventView::Received(z), now) == (
                pool.insert(
                    addr,
                    ConnectionStats {
                        messages_sent: s.messages_sent,
                        messages_received: s.messages_received.wrapping_add(1),
                        bytes_sent: s.bytes_sent,
                        bytes_received: s.bytes_received.wrapping_add(
                            ((4 + zpack_bytes(z).len()) % 0x1_0000_0000_0000_0000) as u64,
                        ),
                        errors: s.errors,
                        last_activity: now,
                    },
                ),
                x.attempts,
                StepView::Done(Ok(Some(z))),
            )
        }),
{
}

/// An error on a connection: where it is broken, the connection leaves the pool and
/// nothing else changes; otherwise it is counted and nothing else changes.
pub proof fn law_exchange_failures(
    pool: Map<Seq<char>, ConnectionStats>,
    x: ExchangeView,
    error: ErrorView,
    now: u64,
)
    requires
        pool.contains_key(address_text((x.host, x.port))),
    ensures
        ({
            let addr = address_text((x.host, x.port));
            let s = pool[addr];
            let failed = exchange_step(pool, x, EventView::SendFailed(error), now);
            &&& failed == exchange_step(pool, x, EventView::ReceiveFailed(error), now)
            &&& is_broken(error) ==> failed.0 == pool.remove(addr)
            &&& is_broken(error) && x.attempts == 0 ==> failed.1 == 1 && failed.2 is Connect
            &&& is_broken(error) && x.attempts > 0 ==> failed.1 == x.attempts && failed.2
                == StepView::Done(Err(error))
            &&& !is_broken(error) ==> failed == (
                pool.insert(
                    addr,
                    ConnectionStats {
                        messages_sent: s.messages_sent,
                        messages_received: s.messages_received,
                        bytes_sent: s.bytes_sent,
                        bytes_received: s.bytes_received,
                        errors: s.errors.wrapping_add(1),
                        last_activity: s.last_activity,
                    },
                ),
                x.attempts,
                StepView::Done(Err(error)),
            )
        }),
{
}

/// Without its connection an exchange cannot go on, and leaves everything alone.
pub proof fn law_exchange_without_connection(
    pool: Map<Seq<char>, ConnectionStats>,
    x: ExchangeView,
    event: EventView,
    now: u64,
)
    requires
        !pool.contains_key(address_text((x.host, x.port))),
        event is Sent || event is SendFailed || event is Received || event is ReceiveFailed,
    ensures
        exchange_step(pool, x, event, now) == (
            pool,
            x.attempts,
            StepView::Done(Err(ErrorView::Internal("connection vanished from pool"@))),
        ),
{
}

} // verus!
