//! TCP transport with connections that are recycled, and with metrics.
//!
//! Times are nanoseconds of a monotonic clock that the caller reads.

use crate::connection::{EventView, ExchangeEvent, ExchangeStep, StepView};
use crate::error::{ErrorView, ZhtError};
use crate::hash_util::HashUtil;
use crate::host_entity::address_text;
use crate::metrics::{is_balanced, zero_snapshot, MetricsSnapshot, TransportMetrics};
use crate::table::Table;
use crate::transport::RequestHandler;
use crate::zpack::{ZPack, ZPackView};
use vstd::prelude::*;

verus! {

/// How long a connection may stand idle, in nanoseconds.
pub const MAX_IDLE_NANOS: u64 = 300_000_000_000;

/// How many operations a connection is used for.
pub const MAX_OPS: u64 = 10_000;

/// A connection of the pool: when it was last used, and how often.
#[derive(Debug, Clone, Copy)]
pub struct PooledConn {
    /// Time of the last use.
    pub last_used: u64,
    /// Number of operations so far.
    pub ops: u64,
}

impl PooledConn {
    /// A connection made at `now`.
    pub open spec fn fresh(now: u64) -> PooledConn {
        PooledConn { last_used: now, ops: 0 }
    }

    /// The connection after one more use at `now`.
    pub open spec fn used(self, now: u64) -> PooledConn {
        PooledConn { last_used: now, ops: self.ops.wrapping_add(1) }
    }

    /// Whether the connection has been idle for too long or used too often.
    pub open spec fn is_worn(self, now: u64) -> bool {
        now - self.last_used > MAX_IDLE_NANOS || self.ops >= MAX_OPS
    }

    /// A connection made at `now`.
    pub fn new(now: u64) -> (r: PooledConn)
        ensures
            r == PooledConn::fresh(now),
    {
        PooledConn { last_used: now, ops: 0 }
    }

    /// Notes one more use at `now`.
    pub fn touch(&mut self, now: u64)
        ensures
            *final(self) == old(self).used(now),
    {
        self.last_used = now;
        self.ops = self.ops.wrapping_add(1);
    }

    /// Whether the connection is to be replaced.
    pub fn needs_recycling(&self, now: u64) -> (r: bool)
        ensures
            r == self.is_worn(now),
    {
        let idle: u64 = if now > self.last_used { now - self.last_used } else { 0 };
        idle > MAX_IDLE_NANOS || self.ops >= MAX_OPS
    }
}

// ── Counters ────────────────────────────────────────────────────────────

/// The counters after a connection was opened.
pub open spec fn one_opened(s: MetricsSnapshot) -> MetricsSnapshot {
    MetricsSnapshot {
        active_connections: s.active_connections.wrapping_add(1),
        connections_opened: s.connections_opened.wrapping_add(1),
        ..s
    }
}

/// The counters after a connection was closed.
pub open spec fn one_closed(s: MetricsSnapshot) -> MetricsSnapshot {
    MetricsSnapshot {
        active_connections: s.active_connections.wrapping_sub(1),
        connections_closed: s.connections_closed.wrapping_add(1),
        ..s
    }
}

/// The counters after `n` connections were closed.
pub open spec fn many_closed(s: MetricsSnapshot, n: nat) -> MetricsSnapshot
    decreases n,
{
    if n == 0 {
        s
    } else {
        one_closed(many_closed(s, (n - 1) as nat))
    }
}

// ── The proxy ───────────────────────────────────────────────────────────

/// The connections of a proxy and its counters.
pub struct ProxyView {
    pub conns: Map<Seq<char>, PooledConn>,
    pub counters: MetricsSnapshot,
}

impl ProxyView {
    /// The proxy without its connection to `addr`, which is counted as closed
    /// if there is one.
    pub open spec fn without(self, addr: Seq<char>) -> ProxyView {
        if self.conns.contains_key(addr) {
            ProxyView { conns: self.conns.remove(addr), counters: one_closed(self.counters) }
        } else {
            self
        }
    }

    /// The proxy without any connection, each of which is counted as closed.
    pub open spec fn without_all(self) -> ProxyView {
        ProxyView {
            conns: Map::empty(),
            counters: many_closed(self.counters, self.conns.dom().len()),
        }
    }
}

/// The proxy and the next step after an event of an exchange with the node at
/// `host:port`. A connection that is worn is counted as closed and replaced
/// before it is used; one that fails in an exchange with a response is
/// dropped.
pub open spec fn proxy_step(
    p: ProxyView,
    host: Seq<char>,
    port: u16,
    wants_reply: bool,
    event: EventView,
    now: u64,
) -> (ProxyView, StepView) {
    let addr = address_text((host, port));
    match event {
        EventView::Started => if !p.conns.contains_key(addr) {
            (p, StepView::Connect)
        } else if p.conns[addr].is_worn(now) {
            (
                ProxyView {
                    counters: MetricsSnapshot {
                        reconnections: p.counters.reconnections.wrapping_add(1),
                        ..one_closed(p.counters)
                    },
                    ..p
                },
                StepView::Connect,
            )
        } else {
            (p, StepView::Send)
        },
        EventView::Connected => (
            ProxyView {
                conns: p.conns.insert(addr, PooledConn::fresh(now)),
                counters: one_opened(p.counters),
            },
            StepView::Send,
        ),
        EventView::ConnectFailed(reason) => (
            p,
            StepView::Done(Err(ErrorView::ConnectionFailed { host, port, reason })),
        ),
        EventView::Sent => (
            ProxyView {
                conns: if p.conns.contains_key(addr) {
                    p.conns.insert(addr, p.conns[addr].used(now))
                } else {
                    p.conns
                },
                counters: MetricsSnapshot {
                    messages_sent: p.counters.messages_sent.wrapping_add(1),
                    ..p.counters
                },
            },
            if wants_reply {
                StepView::Receive
            } else {
                StepView::Done(Ok(None))
            },
        ),
        EventView::SendFailed(e) => if wants_reply {
            (
                ProxyView {
                    counters: MetricsSnapshot {
                        send_errors: p.counters.send_errors.wrapping_add(1),
                        ..p.counters
                    },
                    ..p
                }.without(addr),
                StepView::Done(Err(e)),
            )
        } else {
            (p, StepView::Done(Err(e)))
        },
        EventView::Received(z) => (
            ProxyView {
                conns: if p.conns.contains_key(addr) {
                    p.conns.insert(addr, p.conns[addr].used(now))
                } else {
                    p.conns
                },
                counters: MetricsSnapshot {
                    messages_received: p.counters.messages_received.wrapping_add(1),
                    ..p.counters
                },
            },
            StepView::Done(Ok(Some(z))),
        ),
        EventView::ReceiveFailed(e) => (
            ProxyView {
                counters: MetricsSnapshot {
                    recv_errors: p.counters.recv_errors.wrapping_add(1),
                    ..p.counters
                },
                ..p
            }.without(addr),
            StepView::Done(Err(e)),
        ),
    }
}

/// What a proxy can be asked for.
pub enum ProxyCall {
    /// To take in an event of an exchange.
    Event { host: Seq<char>, port: u16, wants_reply: bool, event: EventView, now: u64 },
    /// To close the connection to a node.
    Close { host: Seq<char>, port: u16 },
    /// To close all connections.
    CloseAll,
}

/// The proxy after a call.
pub open spec fn proxy_after(p: ProxyView, call: ProxyCall) -> ProxyView {
    match call {
        ProxyCall::Event { host, port, wants_reply, event, now } => proxy_step(
            p,
            host,
            port,
            wants_reply,
            event,
            now,
        ).0,
        ProxyCall::Close { host, port } => p.without(address_text((host, port))),
        ProxyCall::CloseAll => p.without_all(),
    }
}

/// The proxy after calls, one after the other.
pub open spec fn proxy_after_all(p: ProxyView, calls: Seq<ProxyCall>) -> ProxyView
    decreases calls.len(),
{
    if calls.len() == 0 {
        p
    } else {
        proxy_after(proxy_after_all(p, calls.drop_last()), calls.last())
    }
}

/// The client side of the TCP transport.
pub struct TcpProxy {
    conns: Table<PooledConn>,
    metrics: TransportMetrics,
}

impl View for TcpProxy {
    type V = ProxyView;

    closed spec fn view(&self) -> ProxyView {
        ProxyView { conns: self.conns@, counters: self.metrics@ }
    }
}

impl TcpProxy {
    /// The connections are well-formed.
    pub closed spec fn wf(&self) -> bool {
        self.conns.wf()
    }

    /// Create a proxy with an empty pool.
    pub fn new() -> (r: TcpProxy)
        ensures
            r.wf(),
            r@ == (ProxyView { conns: Map::empty(), counters: zero_snapshot() }),
    {
        TcpProxy::with_metrics(TransportMetrics::new())
    }

    /// Create a proxy with an empty pool and the given metrics.
    pub fn with_metrics(metrics: TransportMetrics) -> (r: TcpProxy)
        ensures
            r.wf(),
            r@ == (ProxyView { conns: Map::empty(), counters: metrics@ }),
    {
        TcpProxy { conns: Table::new(), metrics }
    }

    fn remove_conn(&mut self, addr: &str)
        requires
            old(self).wf(),
        ensures
            final(self).wf(),
            final(self)@ == old(self)@.without(addr@),
    {
        match self.conns.remove(addr) {
            Some(_) => {
                self.metrics.dec_active_connections();
            },
            None => {
                assert(self.conns@ =~= old(self).conns@);
            },
        }
    }

    fn touch(&mut self, addr: &str, now: u64)
        requires
            old(self).wf(),
        ensures
            final(self).wf(),
            final(self)@.counters == old(self)@.counters,
            final(self)@.conns == (if old(self)@.conns.contains_key(addr@) {
                old(self)@.conns.insert(addr@, old(self)@.conns[addr@].used(now))
            } else {
                old(self)@.conns
            }),
    {
        let found: Option<PooledConn> = match self.conns.get(addr) {
            Some(conn) => Some(*conn),
            None => None,
        };
        match found {
            Some(mut conn) => {
                conn.touch(now);
                self.conns.insert(addr.to_owned(), conn);
            },
            None => {},
        }
    }

    /// Takes in what happened in an exchange with the node at `host:port`, and
    /// says what is to be done next.
    pub fn on_event(
        &mut self,
        host: &str,
        port: u16,
        wants_reply: bool,
        event: ExchangeEvent,
        now: u64,
    ) -> (r: ExchangeStep)
        requires
            old(self).wf(),
        ensures
            final(self).wf(),
            (final(self)@, r@) == proxy_step(old(self)@, host@, port, wants_reply, event@, now),
    {
        let addr = HashUtil::gen_base(host, port);
        match event {
            ExchangeEvent::Started => {
                match self.conns.get(&addr) {
                    None => ExchangeStep::Connect,
                    Some(conn) => if conn.needs_recycling(now) {
                        self.metrics.dec_active_connections();
                        self.metrics.inc_reconnections();
                        ExchangeStep::Connect
                    } else {
                        ExchangeStep::Send
                    },
                }
            },
            ExchangeEvent::Connected => {
                self.metrics.inc_active_connections();
                self.conns.insert(addr, PooledConn::new(now));
                ExchangeStep::Send
            },
            ExchangeEvent::ConnectFailed(reason) => ExchangeStep::Done(
                Err(ZhtError::ConnectionFailed { host: host.to_owned(), port, reason }),
            ),
            ExchangeEvent::Sent => {
                self.touch(&addr, now);
                self.metrics.inc_messages_sent();
                if wants_reply {
                    ExchangeStep::Receive
                } else {
                    ExchangeStep::Done(Ok(None))
                }
            },
            ExchangeEvent::SendFailed(e) => {
                if wants_reply {
                    self.metrics.inc_send_errors();
                    self.remove_conn(&addr);
                }
                ExchangeStep::Done(Err(e))
            },
            ExchangeEvent::Received(z) => {
                self.touch(&addr, now);
                self.metrics.inc_messages_received();
                ExchangeStep::Done(Ok(Some(z)))
            },
            ExchangeEvent::ReceiveFailed(e) => {
                self.metrics.inc_recv_errors();
                self.remove_conn(&addr);
                ExchangeStep::Done(Err(e))
            },
        }
    }

    /// Close the connection to a node.
    pub fn close_connection(&mut self, host: &str, port: u16)
        requires
            old(self).wf(),
        ensures
            final(self).wf(),
            final(self)@ == old(self)@.without(address_text((host@, port))),
    {
        self.remove_conn(&HashUtil::gen_base(host, port));
    }

    /// Close all connections.
    pub fn close_all(&mut self)
        requires
            old(self).wf(),
        ensures
            final(self).wf(),
            final(self)@ == old(self)@.without_all(),
    {
        let n: usize = self.conns.len();
        self.conns = Table::new();
        for i in 0..n
            invariant
                self.conns.wf(),
                self.conns@ == Map::<Seq<char>, PooledConn>::empty(),
                self.metrics@ == many_closed(old(self)@.counters, i as nat),
        {
            self.metrics.dec_active_connections();
        }
    }

    /// The number of connections.
    pub fn connection_count(&self) -> (r: usize)
        requires
            self.wf(),
        ensures
            self@.conns.dom().finite(),
            r == self@.conns.dom().len(),
    {
        self.conns.len()
    }

    /// The name of the protocol.
    pub fn protocol_name(&self) -> (r: &'static str)
        ensures
            r@ == "TCP"@,
    {
        "TCP"
    }

    /// The metrics of the proxy.
    pub fn metrics(&self) -> (r: &TransportMetrics)
        ensures
            r@ == self@.counters,
    {
        &self.metrics
    }
}

impl Default for TcpProxy {
    fn default() -> (r: TcpProxy)
        ensures
            r.wf(),
            r@ == (ProxyView { conns: Map::empty(), counters: zero_snapshot() }),
    {
        TcpProxy::new()
    }
}

// ── The server ──────────────────────────────────────────────────────────

/// The server side of the TCP transport.
#[derive(Debug)]
pub struct TcpServer {
    metrics: TransportMetrics,
}

impl View for TcpServer {
    type V = MetricsSnapshot;

    closed spec fn view(&self) -> MetricsSnapshot {
        self.metrics@
    }
}

impl TcpServer {
    /// Create a server.
    pub fn new() -> (r: TcpServer)
        ensures
            r@ == zero_snapshot(),
    {
        TcpServer { metrics: TransportMetrics::new() }
    }

    /// Create a server with the given metrics.
    pub fn with_metrics(m: TransportMetrics) -> (r: TcpServer)
        ensures
            r@ == m@,
    {
        TcpServer { metrics: m }
    }

    /// The metrics of the server.
    pub fn metrics(&self) -> (r: &TransportMetrics)
        ensures
            r@ == self@,
    {
        &self.metrics
    }

    /// Counts a connection that was accepted.
    pub fn on_accepted(&mut self)
        ensures
            final(self)@ == (MetricsSnapshot {
                connections_accepted: old(self)@.connections_accepted.wrapping_add(1),
                ..old(self)@
            }),
    {
        self.metrics.inc_connections_accepted();
    }

    /// Counts a request that is handed to the handler.
    pub fn on_request(&mut self)
        ensures
            final(self)@ == (MetricsSnapshot {
                requests_processed: old(self)@.requests_processed.wrapping_add(1),
                ..old(self)@
            }),
    {
        self.metrics.inc_requests_processed();
    }

    /// Counts a request and hands it to the handler.
    pub fn handle<H: RequestHandler>(&mut self, handler: &H, request: &ZPack) -> (r: ZPack)
        ensures
            final(self)@ == (MetricsSnapshot {
                requests_processed: old(self)@.requests_processed.wrapping_add(1),
                ..old(self)@
            }),
            call_ensures(H::handle, (handler, request), r),
    {
        self.on_request();
        handler.handle(request)
    }

    /// Counts a response that could not be sent.
    pub fn on_send_failed(&mut self)
        ensures
            final(self)@ == (MetricsSnapshot {
                send_errors: old(self)@.send_errors.wrapping_add(1),
                ..old(self)@
            }),
    {
        self.metrics.inc_send_errors();
    }
}

impl Default for TcpServer {
    fn default() -> (r: TcpServer)
        ensures
            r@ == zero_snapshot(),
    {
        TcpServer::new()
    }
}

// ── Laws ────────────────────────────────────────────────────────────────

/// A connection is not used when it is worn: an exchange sends over a pooled
/// connection only while it has been idle for no longer than allowed and used
/// less often than allowed.
pub proof fn law_worn_connections_are_replaced(
    p: ProxyView,
    host: Seq<char>,
    port: u16,
    wants_reply: bool,
    now: u64,
)
    ensures
        proxy_step(p, host, port, wants_reply, EventView::Started, now).1 is Send <==> {
            let addr = address_text((host, port));
            &&& p.conns.contains_key(addr)
            &&& now - p.conns[addr].last_used <= MAX_IDLE_NANOS
            &&& p.conns[addr].ops < MAX_OPS
        },
{
}

/// An exchange that fails leaves no connection to its node behind, where a
/// response was wanted.
pub proof fn law_failed_exchange_drops_connection(
    p: ProxyView,
    host: Seq<char>,
    port: u16,
    error: ErrorView,
    now: u64,
)
    ensures
        !proxy_step(p, host, port, true, EventView::SendFailed(error), now).0.conns.contains_key(
            address_text((host, port)),
        ),
        !proxy_step(p, host, port, true, EventView::ReceiveFailed(error), now).0.conns.contains_key(
            address_text((host, port)),
        ),
{
}

/// How many connections a proxy has after a call: one more where a connection was
/// made that it did not have, one less where it closed one or where one failed
/// that was to bring a response, none where it closed all, and otherwise as many
/// as before.
pub proof fn law_proxy_connection_count(p: ProxyView, call: ProxyCall)
    requires
        p.conns.dom().finite(),
    ensures
        proxy_after(p, call).conns.dom().finite(),
        proxy_after(p, call).conns.dom().len() == match call {
            ProxyCall::Event { host, port, wants_reply, event, now } => {
                let known = p.conns.contains_key(address_text((host, port)));
                let fails = event is ReceiveFailed || (event is SendFailed && wants_reply);
                p.conns.dom().len() + (if event is Connected && !known {
                    1int
                } else if fails && known {
                    -1
                } else {
                    0
                })
            },
            ProxyCall::Close { host, port } => p.conns.dom().len() - (
            if p.conns.contains_key(address_text((host, port))) {
                1int
            } else {
                0
            }),
            ProxyCall::CloseAll => 0,
        },
{
}

proof fn lemma_many_closed(s: MetricsSnapshot, n: nat)
    requires
        is_balanced(s),
    ensures
        is_balanced(many_closed(s, n)),
    decreases n,
{
    if n > 0 {
        lemma_many_closed(s, (n - 1) as nat);
    }
}

/// Whatever happens to a proxy, and in whatever order, the active connections
/// are those that were opened without those that were closed, if they were so
/// before. A new proxy is so.
pub proof fn law_proxy_stays_balanced(p: ProxyView, calls: Seq<ProxyCall>)
    requires
        is_balanced(p.counters),
    ensures
        is_balanced(zero_snapshot()),
        is_balanced(proxy_after_all(p, calls).counters),
    decreases calls.len(),
{
    if calls.len() > 0 {
        law_proxy_stays_balanced(p, calls.drop_last());
        let before = proxy_after_all(p, calls.drop_last());
        lemma_many_closed(before.counters, before.conns.dom().len());
    }
}

/// Replacing a worn connection counts one closed and one opened: the count of
/// active connections stays.
pub proof fn law_recycling_keeps_active_count(
    p: ProxyView,
    host: Seq<char>,
    port: u16,
    wants_reply: bool,
    now: u64,
    later: u64,
)
    requires
        p.conns.contains_key(address_text((host, port))),
        p.conns[address_text((host, port))].is_worn(now),
    ensures
        ({
            let started = proxy_step(p, host, port, wants_reply, EventView::Started, now).0;
            let connected = proxy_step(
                started,
                host,
                port,
                wants_reply,
                EventView::Connected,
                later,
            ).0;
            &&& connected.counters.active_connections == p.counters.active_connections
            &&& connected.counters.connections_opened == p.counters.connections_opened.wrapping_add(1)
            &&& connected.counters.connections_closed == p.counters.connections_closed.wrapping_add(1)
            &&& connected.counters.reconnections == p.counters.reconnections.wrapping_add(1)
            &&& connected.conns.dom() == p.conns.dom()
        }),
{
    let addr = address_text((host, port));
    assert(p.conns.insert(addr, PooledConn::fresh(later)).dom() =~= p.conns.dom());
}

/// After `n` connections were closed, so many more are counted as closed and so
/// many fewer as active, in 64 bits, and no other counter changes.
pub proof fn law_many_closed(s: MetricsSnapshot, n: nat)
    ensures
        many_closed(s, n) == (MetricsSnapshot {
            active_connections: ((s.active_connections - n) % 0x1_0000_0000_0000_0000) as u64,
            connections_closed: ((s.connections_closed + n) % 0x1_0000_0000_0000_0000) as u64,
            ..s
        }),
    decreases n,
{
    let m: int = 0x1_0000_0000_0000_0000;
    if n > 0 {
        law_many_closed(s, (n - 1) as nat);
        let a: int = s.active_connections - (n - 1);
        let c: int = s.connections_closed + (n - 1);
        vstd::arithmetic::div_mod::lemma_sub_mod_noop(a, 1, m);
        vstd::arithmetic::div_mod::lemma_add_mod_noop(c, 1, m);
    }
}

/// Opening and closing one connection.
pub proof fn law_one_opened_or_closed(s: MetricsSnapshot)
    ensures
        one_opened(s) == (MetricsSnapshot {
            active_connections: s.active_connections.wrapping_add(1),
            connections_opened: s.connections_opened.wrapping_add(1),
            ..s
        }),
        one_closed(s) == (MetricsSnapshot {
            active_connections: s.active_connections.wrapping_sub(1),
            connections_closed: s.connections_closed.wrapping_add(1),
            ..s
        }),
        one_closed(one_opened(s)).active_connections == s.active_connections,
{
}

/// A proxy touches no connection but that to the node of the exchange.
pub proof fn law_proxy_leaves_other_connections(
    p: ProxyView,
    host: Seq<char>,
    port: u16,
    wants_reply: bool,
    event: EventView,
    now: u64,
    other: Seq<char>,
)
    requires
        other != address_text((host, port)),
    ensures
        ({
            let after = proxy_step(p, host, port, wants_reply, event, now).0;
            &&& after.conns.contains_key(other) == p.conns.contains_key(other)
            &&& p.conns.contains_key(other) ==> after.conns[other] == p.conns[other]
        }),
        p.without(address_text((host, port))).conns.contains_key(other) == p.conns.contains_key(other),
        p.conns.contains_key(other) ==> p.without(address_text((host, port))).conns[other]
            == p.conns[other],
{
}

/// How a proxy starts an exchange: over a connection that was used within five
/// minutes and fewer than ten thousand times; otherwise over a new one. A worn
/// connection is counted as closed and replaced. One that was made is fresh and
/// counted.
pub proof fn law_proxy_connects(
    p: ProxyView,
    host: Seq<char>,
    port: u16,
    wants_reply: bool,
    reason: Seq<char>,
    now: u64,
)
    ensures
        ({
            let addr = address_text((host, port));
            let started = proxy_step(p, host, port, wants_reply, EventView::Started, now);
            let connected = proxy_step(p, host, port, wants_reply, EventView::Connected, now);
            let failed = proxy_step(p, host, port, wants_reply, EventView::ConnectFailed(reason), now);
            let fit = p.conns.contains_key(addr) && now <= p.conns[addr].last_used + 300_000_000_000
                && p.conns[addr].ops < 10_000;
            &&& fit ==> started == (p, StepView::Send)
            &&& !fit ==> started.1 is Connect && started.0.conns == p.conns
            &&& !p.conns.contains_key(addr) ==> started.0 == p
            &&& !fit && p.conns.contains_key(addr) ==> started.0.counters == (MetricsSnapshot {
                active_connections: p.counters.active_connections.wrapping_sub(1),
                connections_closed: p.counters.connections_closed.wrapping_add(1),
                reconnections: p.counters.reconnections.wrapping_add(1),
                ..p.counters
            })
            &&& connected.1 is Send
            &&& connected.0.conns == p.conns.insert(addr, PooledConn { last_used: now, ops: 0 })
            &&& connected.0.counters == (MetricsSnapshot {
                active_connections: p.counters.active_connections.wrapping_add(1),
                connections_opened: p.counters.connections_opened.wrapping_add(1),
                ..p.counters
            })
            &&& failed == (
                p,
                StepView::Done(Err(ErrorView::ConnectionFailed { host, port, reason })),
            )
        }),
{
}

/// What a proxy notes of messages: the use of the connection and one message more.
/// Where no response is wanted the exchange is over when its message was sent.
pub proof fn law_proxy_counts_messages(
    p: ProxyView,
    host: Seq<char>,
    port: u16,
    wants_reply: bool,
    z: ZPackView,
    now: u64,
)
    requires
        p.conns.contains_key(address_text((host, port))),
    ensures
        ({
            let addr = address_text((host, port));
            let touched = p.conns.insert(
                addr,
                PooledConn { last_used: now, ops: p.conns[addr].ops.wrapping_add(1) },
            );
            let sent = proxy_step(p, host, port, wants_reply, EventView::Sent, now);
            let received = proxy_step(p, host, port, wants_reply, EventView::Received(z), now);
            &&& sent.0.conns == touched
            &&& sent.0.counters == (MetricsSnapshot {
                messages_sent: p.counters.messages_sent.wrapping_add(1),
                ..p.counters
            })
            &&& wants_reply ==> sent.1 is Receive
            &&& !wants_reply ==> sent.1 == StepView::Done(Ok(None))
            &&& received.0.conns == touched
            &&& received.0.counters == (MetricsSnapshot {
                messages_received: p.counters.messages_received.wrapping_add(1),
                ..p.counters
            })
            &&& received.1 == StepView::Done(Ok(Some(z)))
        }),
{
}

/// A failure ends an exchange with its error. Where a response was wanted, it is
/// counted, and the connection closed; where none was, a failure to send changes
/// nothing.
pub proof fn law_proxy_failures(
    p: ProxyView,
    host: Seq<char>,
    port: u16,
    error: ErrorView,
    now: u64,
)
    requires
        p.conns.contains_key(address_text((host, port))),
    ensures
        ({
            let addr = address_text((host, port));
            let closed = MetricsSnapshot {
                active_connections: p.counters.active_connections.wrapping_sub(1),
                connections_closed: p.counters.connections_closed.wrapping_add(1),
                ..p.counters
            };
            let unsent = proxy_step(p, host, port, true, EventView::SendFailed(error), now);
            let unheard = proxy_step(p, host, port, true, EventView::ReceiveFailed(error), now);
            let one_way = proxy_step(p, host, port, false, EventView::SendFailed(error), now);
            &&& unsent.0.conns == p.conns.remove(addr)
            &&& unsent.0.counters == (MetricsSnapshot {
                send_errors: p.counters.send_errors.wrapping_add(1),
                ..closed
            })
            &&& unsent.1 == StepView::Done(Err(error))
            &&& unheard.0.conns == p.conns.remove(addr)
            &&& unheard.0.counters == (MetricsSnapshot {
                recv_errors: p.counters.recv_errors.wrapping_add(1),
                ..closed
            })
            &&& unheard.1 == StepView::Done(Err(error))
            &&& one_way == (p, StepView::Done(Err(error)))
        }),
{
}

/// Closing a connection takes it out and counts it; closing one that is not there
/// changes nothing; closing all leaves none.
pub proof fn law_proxy_closes(p: ProxyView, addr: Seq<char>)
    ensures
        p.conns.contains_key(addr) ==> p.without(addr).conns == p.conns.remove(addr) && p.without(
            addr,
        ).counters == (MetricsSnapshot {
            active_connections: p.counters.active_connections.wrapping_sub(1),
            connections_closed: p.counters.connections_closed.wrapping_add(1),
            ..p.counters
        }),
        !p.conns.contains_key(addr) ==> p.without(addr) == p,
        p.without_all().conns == Map::<Seq<char>, PooledConn>::empty(),
        p.without_all().counters == many_closed(p.counters, p.conns.dom().len()),
{
}

/// A connection is fresh when it is made; each use notes its time and counts; and
/// it is worn after five minutes without use or ten thousand uses.
pub proof fn law_pooled_connection(c: PooledConn, now: u64)
    ensures
        PooledConn::fresh(now) == (PooledConn { last_used: now, ops: 0 }),
        c.used(now) == (PooledConn { last_used: now, ops: c.ops.wrapping_add(1) }),
        c.is_worn(now) <==> now > c.last_used + 300_000_000_000 || c.ops >= 10_000,
{
}

/// Without a connection to its node an exchange still counts what happened to its
/// messages; there is nothing to note or to close.
pub proof fn law_proxy_without_connection(
    p: ProxyView,
    host: Seq<char>,
    port: u16,
    wants_reply: bool,
    z: ZPackView,
    error: ErrorView,
    now: u64,
)
    requires
        !p.conns.contains_key(address_text((host, port))),
    ensures
        ({
            let sent = proxy_step(p, host, port, wants_reply, EventView::Sent, now);
            let received = proxy_step(p, host, port, wants_reply, EventView::Received(z), now);
            let unsent = proxy_step(p, host, port, wants_reply, EventView::SendFailed(error), now);
            let unheard = proxy_step(p, host, port, wants_reply, EventView::ReceiveFailed(error), now);
            &&& sent.0 == (ProxyView {
                conns: p.conns,
                counters: MetricsSnapshot {
                    messages_sent: p.counters.messages_sent.wrapping_add(1),
                    ..p.counters
                },
            })
            &&& wants_reply ==> sent.1 is Receive
            &&& !wants_reply ==> sent.1 == StepView::Done(Ok(None))
            &&& received.0 == (ProxyView {
                conns: p.conns,
                counters: MetricsSnapshot {
                    messages_received: p.counters.messages_received.wrapping_add(1),
                    ..p.counters
                },
            })
            &&& received.1 == StepView::Done(Ok(Some(z)))
            &&& wants_reply ==> unsent.0 == (ProxyView {
                conns: p.conns,
                counters: MetricsSnapshot {
                    send_errors: p.counters.send_errors.wrapping_add(1),
                    ..p.counters
                },
            })
            &&& !wants_reply ==> unsent.0 == p
            &&& unsent.1 == StepView::Done(Err(error))
            &&& unheard.0 == (ProxyView {
                conns: p.conns,
                counters: MetricsSnapshot {
                    recv_errors: p.counters.recv_errors.wrapping_add(1),
                    ..p.counters
                },
            })
            &&& unheard.1 == StepView::Done(Err(error))
        }),
{
}

} // verus!
