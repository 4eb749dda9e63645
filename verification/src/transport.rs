//! Transports by protocol: the two sides of each, and a factory for them.

use crate::chunking::DEFAULT_CHUNK_THRESHOLD;
use crate::error::{ErrorView, ZhtError, ZhtResult};
use crate::metrics::{zero_snapshot, MetricsSnapshot, TransportMetrics};
use crate::tcp::{ProxyView, TcpProxy, TcpServer};
use crate::text::{same_text, to_uppercase, uppercase};
use crate::udp::{UdpProxy, UdpServer};
use crate::zpack::ZPack;
use vstd::prelude::*;

verus! {

/// Callback trait for processing incoming ZHT requests.
pub trait RequestHandler: Send + Sync {
    /// The response to a request.
    fn handle(&self, request: &ZPack) -> ZPack;
}

// ── Clients ─────────────────────────────────────────────────────────────

/// Protocol-agnostic client transport.
pub enum TransportClientEnum {
    /// TCP.
    Tcp(TcpProxy),
    /// UDP.
    Udp(UdpProxy),
}

/// The name of the protocol of a client.
pub open spec fn client_protocol(c: TransportClientEnum) -> Seq<char> {
    match c {
        TransportClientEnum::Tcp(_) => "TCP"@,
        TransportClientEnum::Udp(_) => "UDP"@,
    }
}

/// The name of the protocol of a server.
pub open spec fn server_protocol(s: TransportServerEnum) -> Seq<char> {
    match s {
        TransportServerEnum::Tcp(_) => "TCP"@,
        TransportServerEnum::Udp(_) => "UDP"@,
    }
}

impl TransportClientEnum {
    /// Whether this is a TCP client without connections, with the given
    /// counters.
    pub open spec fn is_new_tcp(self, counters: MetricsSnapshot) -> bool {
        self matches TransportClientEnum::Tcp(proxy) && proxy.wf() && proxy@ == (ProxyView {
            conns: Map::empty(),
            counters,
        })
    }

    /// Whether this is a UDP client with the given counters and the default
    /// threshold for chunks.
    pub open spec fn is_new_udp(self, counters: MetricsSnapshot) -> bool {
        self matches TransportClientEnum::Udp(proxy) && proxy@ == counters && proxy.limit()
            == DEFAULT_CHUNK_THRESHOLD
    }

    /// A TCP client.
    pub fn new_tcp() -> (r: TransportClientEnum)
        ensures
            r.is_new_tcp(zero_snapshot()),
    {
        TransportClientEnum::Tcp(TcpProxy::new())
    }

    /// A TCP client with the given metrics.
    pub fn new_tcp_with_metrics(metrics: TransportMetrics) -> (r: TransportClientEnum)
        ensures
            r.is_new_tcp(metrics@),
    {
        TransportClientEnum::Tcp(TcpProxy::with_metrics(metrics))
    }

    /// A UDP client.
    pub fn new_udp() -> (r: TransportClientEnum)
        ensures
            r.is_new_udp(zero_snapshot()),
    {
        TransportClientEnum::Udp(UdpProxy::new())
    }

    /// A UDP client with the given metrics.
    pub fn new_udp_with_metrics(metrics: TransportMetrics) -> (r: TransportClientEnum)
        ensures
            r.is_new_udp(metrics@),
    {
        TransportClientEnum::Udp(UdpProxy::with_metrics(metrics))
    }

    /// The number of connections: those of a TCP client, none of a UDP client.
    pub fn connection_count(&self) -> (r: usize)
        requires
            *self matches TransportClientEnum::Tcp(proxy) ==> proxy.wf(),
        ensures
            r == (match *self {
                TransportClientEnum::Tcp(proxy) => proxy@.conns.dom().len(),
                TransportClientEnum::Udp(_) => 0,
            }),
            *self matches TransportClientEnum::Tcp(proxy) ==> proxy@.conns.dom().finite(),
    {
        match self {
            TransportClientEnum::Tcp(proxy) => proxy.connection_count(),
            TransportClientEnum::Udp(_) => 0,
        }
    }

    /// The name of the protocol.
    pub fn protocol_name(&self) -> (r: &'static str)
        ensures
            r@ == client_protocol(*self),
    {
        match self {
            TransportClientEnum::Tcp(_) => "TCP",
            TransportClientEnum::Udp(_) => "UDP",
        }
    }
}

// ── Servers ─────────────────────────────────────────────────────────────

/// Protocol-agnostic server transport.
pub enum TransportServerEnum {
    /// TCP.
    Tcp(TcpServer),
    /// UDP.
    Udp(UdpServer),
}

impl TransportServerEnum {
    /// Whether this is a TCP server with the given counters.
    pub open spec fn is_tcp(self, counters: MetricsSnapshot) -> bool {
        self matches TransportServerEnum::Tcp(server) && server@ == counters
    }

    /// Whether this is a UDP server with the given counters.
    pub open spec fn is_udp(self, counters: MetricsSnapshot) -> bool {
        self matches TransportServerEnum::Udp(server) && server@ == counters
    }

    /// A TCP server.
    pub fn new_tcp() -> (r: TransportServerEnum)
        ensures
            r.is_tcp(zero_snapshot()),
    {
        TransportServerEnum::Tcp(TcpServer::new())
    }

    /// A TCP server with the given metrics.
    pub fn new_tcp_with_metrics(metrics: TransportMetrics) -> (r: TransportServerEnum)
        ensures
            r.is_tcp(metrics@),
    {
        TransportServerEnum::Tcp(TcpServer::with_metrics(metrics))
    }

    /// A UDP server.
    pub fn new_udp() -> (r: TransportServerEnum)
        ensures
            r.is_udp(zero_snapshot()),
    {
        TransportServerEnum::Udp(UdpServer::new())
    }

    /// A UDP server with the given metrics.
    pub fn new_udp_with_metrics(metrics: TransportMetrics) -> (r: TransportServerEnum)
        ensures
            r.is_udp(metrics@),
    {
        TransportServerEnum::Udp(UdpServer::with_metrics(metrics))
    }

    /// The name of the protocol.
    pub fn protocol_name(&self) -> (r: &'static str)
        ensures
            r@ == server_protocol(*self),
    {
        match self {
            TransportServerEnum::Tcp(_) => "TCP",
            TransportServerEnum::Udp(_) => "UDP",
        }
    }

    /// The metrics of the server.
    pub fn metrics(&self) -> (r: Option<&TransportMetrics>)
        ensures
            r matches Some(m) && m@ == (match *self {
                TransportServerEnum::Tcp(server) => server@,
                TransportServerEnum::Udp(server) => server@,
            }),
    {
        match self {
            TransportServerEnum::Tcp(server) => Some(server.metrics()),
            TransportServerEnum::Udp(server) => Some(server.metrics()),
        }
    }
}

// ── Factory ─────────────────────────────────────────────────────────────

/// A protocol that there is a transport for.
#[derive(Debug, Clone, Copy, PartialEq, Eq, Structural)]
pub enum Protocol {
    /// TCP.
    Tcp,
    /// UDP.
    Udp,
}

/// The protocol that a name in upper case names, if there is a transport for
/// it.
pub open spec fn protocol_named(upper: Seq<char>) -> Option<Protocol> {
    if upper == "TCP"@ {
        Some(Protocol::Tcp)
    } else if upper == "UDP"@ {
        Some(Protocol::Udp)
    } else {
        None
    }
}

/// The protocol that a name in upper case names, if there is a transport for
/// it.
pub fn find_protocol(upper: &str) -> (r: Option<Protocol>)
    ensures
        r == protocol_named(upper@),
{
    if same_text(upper, "TCP") {
        Some(Protocol::Tcp)
    } else if same_text(upper, "UDP") {
        Some(Protocol::Udp)
    } else {
        None
    }
}

/// Factory for creating transport instances based on protocol configuration.
/// The case of the letters of a protocol name does not matter.
pub struct TransportFactory;

impl TransportFactory {
    fn protocol_of(protocol: &str) -> (r: ZhtResult<Protocol>)
        ensures
            match r {
                Ok(p) => protocol_named(uppercase(protocol@)) == Some(p),
                Err(e) => protocol_named(uppercase(protocol@)) is None && e@
                    == ErrorView::UnsupportedProtocol(uppercase(protocol@)),
            },
    {
        let upper = to_uppercase(protocol);
        match find_protocol(&upper) {
            Some(p) => Ok(p),
            None => Err(ZhtError::UnsupportedProtocol(upper)),
        }
    }

    /// Create a protocol-specific transport client.
    pub fn create_client(protocol: &str) -> (r: ZhtResult<TransportClientEnum>)
        ensures
            match protocol_named(uppercase(protocol@)) {
                Some(Protocol::Tcp) => r matches Ok(c) && c.is_new_tcp(zero_snapshot()),
                Some(Protocol::Udp) => r matches Ok(c) && c.is_new_udp(zero_snapshot()),
                None => r matches Err(e) && e@ == ErrorView::UnsupportedProtocol(
                    uppercase(protocol@),
                ),
            },
    {
        match TransportFactory::protocol_of(protocol) {
            Ok(Protocol::Tcp) => Ok(TransportClientEnum::new_tcp()),
            Ok(Protocol::Udp) => Ok(TransportClientEnum::new_udp()),
            Err(e) => Err(e),
        }
    }

    /// Create a protocol-specific transport client with the given metrics.
    pub fn create_client_with_metrics(protocol: &str, metrics: TransportMetrics) -> (r: ZhtResult<
        TransportClientEnum,
    >)
        ensures
            match protocol_named(uppercase(protocol@)) {
                Some(Protocol::Tcp) => r matches Ok(c) && c.is_new_tcp(metrics@),
                Some(Protocol::Udp) => r matches Ok(c) && c.is_new_udp(metrics@),
                None => r matches Err(e) && e@ == ErrorView::UnsupportedProtocol(
                    uppercase(protocol@),
                ),
            },
    {
        match TransportFactory::protocol_of(protocol) {
            Ok(Protocol::Tcp) => Ok(TransportClientEnum::new_tcp_with_metrics(metrics)),
            Ok(Protocol::Udp) => Ok(TransportClientEnum::new_udp_with_metrics(metrics)),
            Err(e) => Err(e),
        }
    }

    /// Create a protocol-specific transport server.
    pub fn create_server(protocol: &str) -> (r: ZhtResult<TransportServerEnum>)
        ensures
            match protocol_named(uppercase(protocol@)) {
                Some(Protocol::Tcp) => r matches Ok(s) && s.is_tcp(zero_snapshot()),
                Some(Protocol::Udp) => r matches Ok(s) && s.is_udp(zero_snapshot()),
                None => r matches Err(e) && e@ == ErrorView::UnsupportedProtocol(
                    uppercase(protocol@),
                ),
            },
    {
        match TransportFactory::protocol_of(protocol) {
            Ok(Protocol::Tcp) => Ok(TransportServerEnum::new_tcp()),
            Ok(Protocol::Udp) => Ok(TransportServerEnum::new_udp()),
            Err(e) => Err(e),
        }
    }

    /// Create a protocol-specific transport server with the given metrics.
    pub fn create_server_with_metrics(protocol: &str, metrics: TransportMetrics) -> (r: ZhtResult<
        TransportServerEnum,
    >)
        ensures
            match protocol_named(uppercase(protocol@)) {
                Some(Protocol::Tcp) => r matches Ok(s) && s.is_tcp(metrics@),
                Some(Protocol::Udp) => r matches Ok(s) && s.is_udp(metrics@),
                None => r matches Err(e) && e@ == ErrorView::UnsupportedProtocol(
                    uppercase(protocol@),
                ),
            },
    {
        match TransportFactory::protocol_of(protocol) {
            Ok(Protocol::Tcp) => Ok(TransportServerEnum::new_tcp_with_metrics(metrics)),
            Ok(Protocol::Udp) => Ok(TransportServerEnum::new_udp_with_metrics(metrics)),
            Err(e) => Err(e),
        }
    }

    /// Create both a client and server for the given protocol.
    pub fn create_pair(protocol: &str) -> (r: ZhtResult<(TransportClientEnum, TransportServerEnum)>)
        ensures
            match protocol_named(uppercase(protocol@)) {
                Some(Protocol::Tcp) => r matches Ok((c, s)) && c.is_new_tcp(zero_snapshot())
                    && s.is_tcp(zero_snapshot()),
                Some(Protocol::Udp) => r matches Ok((c, s)) && c.is_new_udp(zero_snapshot()) && s.is_udp(
                    zero_snapshot(),
                ),
                None => r matches Err(e) && e@ == ErrorView::UnsupportedProtocol(
                    uppercase(protocol@),
                ),
            },
    {
        let client = match TransportFactory::create_client(protocol) {
            Ok(c) => c,
            Err(e) => {
                return Err(e);
            },
        };
        match TransportFactory::create_server(protocol) {
            Ok(server) => Ok((client, server)),
            Err(e) => Err(e),
        }
    }
}

/// Two ASCII names that differ in the case of their letters alone name the same
/// protocol.
pub proof fn law_protocol_case_insensitive(a: Seq<char>, b: Seq<char>)
    requires
        vstd::utf8::is_ascii_chars(a),
        vstd::utf8::is_ascii_chars(b),
        a.len() == b.len(),
        forall|i: int|
            0 <= i < a.len() ==> crate::text::ascii_upper(#[trigger] a[i])
                == crate::text::ascii_upper(b[i]),
    ensures
        protocol_named(uppercase(a)) == protocol_named(uppercase(b)),
{
    assert(uppercase(a) =~= uppercase(b));
}

/// A name in upper case names TCP or UDP, or no protocol.
pub proof fn law_protocol_names(upper: Seq<char>)
    ensures
        protocol_named(upper) == Some(Protocol::Tcp) <==> upper == "TCP"@,
        protocol_named(upper) == Some(Protocol::Udp) <==> upper == "UDP"@,
        protocol_named(upper) is None <==> upper != "TCP"@ && upper != "UDP"@,
{
    reveal_strlit("TCP");
    reveal_strlit("UDP");
    assert("TCP"@[0] == 'T' && "UDP"@[0] == 'U');
}

/// What a new client and a new server are: of their protocol, with the given
/// counters, without connections, and with the default threshold.
pub proof fn law_new_transports(
    c: TransportClientEnum,
    s: TransportServerEnum,
    counters: MetricsSnapshot,
)
    ensures
        c.is_new_tcp(counters) ==> (c matches TransportClientEnum::Tcp(proxy) && proxy.wf()
            && proxy@.conns == Map::<Seq<char>, crate::tcp::PooledConn>::empty() && proxy@.counters
            == counters && client_protocol(c) == "TCP"@),
        c.is_new_udp(counters) ==> (c matches TransportClientEnum::Udp(proxy) && proxy@ == counters
            && proxy.limit() == 1_048_576 && client_protocol(c) == "UDP"@),
        s.is_tcp(counters) ==> (s matches TransportServerEnum::Tcp(server) && server@ == counters
            && server_protocol(s) == "TCP"@),
        s.is_udp(counters) ==> (s matches TransportServerEnum::Udp(server) && server@ == counters
            && server_protocol(s) == "UDP"@),
{
}

} // verus!
