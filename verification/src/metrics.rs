//! Transport metrics for monitoring and observability.
//!
//! Every counter is a 64-bit number that starts again at zero after its
//! largest value.

use crate::number::{decimal, decimal_of};
use vstd::prelude::*;

verus! {

/// The values of all counters at a point in time.
#[derive(Debug, Clone, Copy)]
pub struct MetricsSnapshot {
    /// Total number of messages sent (requests).
    pub messages_sent: u64,
    /// Total number of messages received (responses).
    pub messages_received: u64,
    /// Total bytes sent on the wire (including framing overhead).
    pub bytes_sent: u64,
    /// Total bytes received on the wire (including framing overhead).
    pub bytes_received: u64,
    /// Number of active connections currently in the pool.
    pub active_connections: u64,
    /// Number of new connections established.
    pub connections_opened: u64,
    /// Number of connections closed (either explicitly or due to error).
    pub connections_closed: u64,
    /// Number of send failures.
    pub send_errors: u64,
    /// Number of receive failures.
    pub recv_errors: u64,
    /// Number of reconnection attempts (stale connections replaced).
    pub reconnections: u64,
    /// Number of server-side connections accepted.
    pub connections_accepted: u64,
    /// Number of requests processed by the server handler.
    pub requests_processed: u64,
    /// Number of unrecognized opcodes received.
    pub unknown_opcodes: u64,
    /// Total number of chunks sent (big data transfer).
    pub chunks_sent: u64,
    /// Total number of chunks received (big data transfer).
    pub chunks_received: u64,
}

/// The snapshot in which every counter is zero.
pub open spec fn zero_snapshot() -> MetricsSnapshot {
    MetricsSnapshot {
        messages_sent: 0,
        messages_received: 0,
        bytes_sent: 0,
        bytes_received: 0,
        active_connections: 0,
        connections_opened: 0,
        connections_closed: 0,
        send_errors: 0,
        recv_errors: 0,
        reconnections: 0,
        connections_accepted: 0,
        requests_processed: 0,
        unknown_opcodes: 0,
        chunks_sent: 0,
        chunks_received: 0,
    }
}

/// One line of a report: `label`, a number, `middle`, a number and `tail`.
pub open spec fn report_line(label: Seq<char>, a: u64, middle: Seq<char>, b: u64, tail: Seq<char>) -> Seq<char> {
    label + decimal(a as nat) + middle + decimal(b as nat) + tail
}

/// The report of a snapshot, one line for each group of counters. The lines on
/// reconnections, on the server and on chunks are there only where they have
/// something to tell.
pub open spec fn report_text(s: MetricsSnapshot, uptime: Seq<char>) -> Seq<char> {
    "Transport Metrics (uptime: "@ + uptime + "s)\n"@ + report_line(
        "  Messages: "@,
        s.messages_sent,
        " sent / "@,
        s.messages_received,
        " received\n"@,
    ) + report_line("  Bytes: "@, s.bytes_sent, " sent / "@, s.bytes_received, " received\n"@)
        + report_line(
        "  Connections: "@,
        s.active_connections,
        " active / "@,
        s.connections_opened,
        " opened / "@,
    ) + decimal(s.connections_closed as nat) + " closed\n"@ + report_line(
        "  Errors: "@,
        s.send_errors,
        " send / "@,
        s.recv_errors,
        " recv\n"@,
    ) + (if s.reconnections > 0 {
        "  Reconnections: "@ + decimal(s.reconnections as nat) + "\n"@
    } else {
        Seq::empty()
    }) + (if s.connections_accepted > 0 {
        report_line(
            "  Server accepted: "@,
            s.connections_accepted,
            " connections / "@,
            s.requests_processed,
            " requests processed\n"@,
        )
    } else {
        Seq::empty()
    }) + (if s.chunks_sent > 0 || s.chunks_received > 0 {
        report_line("  Chunks: "@, s.chunks_sent, " sent / "@, s.chunks_received, " received\n"@)
    } else {
        Seq::empty()
    })
}

fn line_of(label: &str, a: u64, middle: &str, b: u64, tail: &str) -> (r: String)
    ensures
        r@ == report_line(label@, a, middle@, b, tail@),
{
    let mut out: String = label.to_owned();
    out.push_str(&decimal_of(a));
    out.push_str(middle);
    out.push_str(&decimal_of(b));
    out.push_str(tail);
    out
}

impl MetricsSnapshot {
    /// The report of this snapshot, with the given text for the uptime in
    /// seconds.
    pub fn to_string(&self, uptime: &str) -> (r: String)
        ensures
            r@ == report_text(*self, uptime@),
    {
        let mut out: String = "Transport Metrics (uptime: ".to_owned();
        out.push_str(uptime);
        out.push_str("s)\n");
        out.push_str(
            &line_of("  Messages: ", self.messages_sent, " sent / ", self.messages_received, " received\n"),
        );
        out.push_str(
            &line_of("  Bytes: ", self.bytes_sent, " sent / ", self.bytes_received, " received\n"),
        );
        out.push_str(
            &line_of(
                "  Connections: ",
                self.active_connections,
                " active / ",
                self.connections_opened,
                " opened / ",
            ),
        );
        out.push_str(&decimal_of(self.connections_closed));
        out.push_str(" closed\n");
        out.push_str(
            &line_of("  Errors: ", self.send_errors, " send / ", self.recv_errors, " recv\n"),
        );
        let mut more: String = String::new();
        if self.reconnections > 0 {
            more.push_str("  Reconnections: ");
            more.push_str(&decimal_of(self.reconnections));
            more.push_str("\n");
        }
        assert(more@ =~= (if self.reconnections > 0 {
            "  Reconnections: "@ + decimal(self.reconnections as nat) + "\n"@
        } else {
            Seq::empty()
        }));
        out.push_str(&more);
        if self.connections_accepted > 0 {
            out.push_str(
                &line_of(
                    "  Server accepted: ",
                    self.connections_accepted,
                    " connections / ",
                    self.requests_processed,
                    " requests processed\n",
                ),
            );
        }
        if self.chunks_sent > 0 || self.chunks_received > 0 {
            out.push_str(
                &line_of("  Chunks: ", self.chunks_sent, " sent / ", self.chunks_received, " received\n"),
            );
        }
        assert(out@ =~= report_text(*self, uptime@));
        out
    }
}

/// What the metrics count.
pub enum MetricsCall {
    /// A message was sent.
    MessageSent,
    /// A message was received.
    MessageReceived,
    /// Bytes were sent.
    BytesSent(u64),
    /// Bytes were received.
    BytesReceived(u64),
    /// Sending failed.
    SendError,
    /// Receiving failed.
    RecvError,
    /// A connection was opened.
    Opened,
    /// A connection was closed.
    Closed,
    /// A connection was replaced.
    Reconnection,
    /// A connection was accepted.
    Accepted,
    /// A request was handed to the handler.
    RequestProcessed,
    /// An unrecognized opcode came in.
    UnknownOpcode,
    /// A chunk was sent.
    ChunkSent,
    /// A chunk was received.
    ChunkReceived,
    /// Counting starts anew.
    Reset,
}

/// The counters after one thing more was counted.
pub open spec fn counted(s: MetricsSnapshot, call: MetricsCall) -> MetricsSnapshot {
    match call {
        MetricsCall::MessageSent => MetricsSnapshot {
            messages_sent: s.messages_sent.wrapping_add(1),
            ..s
        },
        MetricsCall::MessageReceived => MetricsSnapshot {
            messages_received: s.messages_received.wrapping_add(1),
            ..s
        },
        MetricsCall::BytesSent(n) => MetricsSnapshot {
            bytes_sent: s.bytes_sent.wrapping_add(n),
            ..s
        },
        MetricsCall::BytesReceived(n) => MetricsSnapshot {
            bytes_received: s.bytes_received.wrapping_add(n),
            ..s
        },
        MetricsCall::SendError => MetricsSnapshot {
            send_errors: s.send_errors.wrapping_add(1),
            ..s
        },
        MetricsCall::RecvError => MetricsSnapshot {
            recv_errors: s.recv_errors.wrapping_add(1),
            ..s
        },
        MetricsCall::Opened => MetricsSnapshot {
            active_connections: s.active_connections.wrapping_add(1),
            connections_opened: s.connections_opened.wrapping_add(1),
            ..s
        },
        MetricsCall::Closed => MetricsSnapshot {
            active_connections: s.active_connections.wrapping_sub(1),
            connections_closed: s.connections_closed.wrapping_add(1),
            ..s
        },
        MetricsCall::Reconnection => MetricsSnapshot {
            reconnections: s.reconnections.wrapping_add(1),
            ..s
        },
        MetricsCall::Accepted => MetricsSnapshot {
            connections_accepted: s.connections_accepted.wrapping_add(1),
            ..s
        },
        MetricsCall::RequestProcessed => MetricsSnapshot {
            requests_processed: s.requests_processed.wrapping_add(1),
            ..s
        },
        MetricsCall::UnknownOpcode => MetricsSnapshot {
            unknown_opcodes: s.unknown_opcodes.wrapping_add(1),
            ..s
        },
        MetricsCall::ChunkSent => MetricsSnapshot {
            chunks_sent: s.chunks_sent.wrapping_add(1),
            ..s
        },
        MetricsCall::ChunkReceived => MetricsSnapshot {
            chunks_received: s.chunks_received.wrapping_add(1),
            ..s
        },
        MetricsCall::Reset => zero_snapshot(),
    }
}

/// The counters after things were counted, one after the other.
pub open spec fn counted_all(s: MetricsSnapshot, calls: Seq<MetricsCall>) -> MetricsSnapshot
    decreases calls.len(),
{
    if calls.len() == 0 {
        s
    } else {
        counted(counted_all(s, calls.drop_last()), calls.last())
    }
}

/// Whether the active connections are those that were opened without those that
/// were closed.
pub open spec fn is_balanced(s: MetricsSnapshot) -> bool {
    s.active_connections == s.connections_opened.wrapping_sub(s.connections_closed)
}

/// Counters for transport-level metrics.
#[derive(Debug)]
pub struct TransportMetrics {
    counters: MetricsSnapshot,
}

impl View for TransportMetrics {
    type V = MetricsSnapshot;

    closed spec fn view(&self) -> MetricsSnapshot {
        self.counters
    }
}

impl TransportMetrics {
    /// Create a new zeroed metrics instance.
    pub fn new() -> (r: TransportMetrics)
        ensures
            r@ == zero_snapshot(),
    {
        TransportMetrics {
            counters: MetricsSnapshot {
                messages_sent: 0,
                messages_received: 0,
                bytes_sent: 0,
                bytes_received: 0,
                active_connections: 0,
                connections_opened: 0,
                connections_closed: 0,
                send_errors: 0,
                recv_errors: 0,
                reconnections: 0,
                connections_accepted: 0,
                requests_processed: 0,
                unknown_opcodes: 0,
                chunks_sent: 0,
                chunks_received: 0,
            },
        }
    }

    // ── Client-side counters ───────────────────────────────────────────

    /// Increment the message-sent counter by 1.
    pub fn inc_messages_sent(&mut self)
        ensures
            final(self)@ == counted(old(self)@, MetricsCall::MessageSent),
    {
        self.counters.messages_sent = self.counters.messages_sent.wrapping_add(1);
    }

    /// Increment the message-received counter by 1.
    pub fn inc_messages_received(&mut self)
        ensures
            final(self)@ == counted(old(self)@, MetricsCall::MessageReceived),
    {
        self.counters.messages_received = self.counters.messages_received.wrapping_add(1);
    }

    /// Add `n` bytes to the bytes-sent counter.
    pub fn add_bytes_sent(&mut self, n: u64)
        ensures
            final(self)@ == counted(old(self)@, MetricsCall::BytesSent(n)),
    {
        self.counters.bytes_sent = self.counters.bytes_sent.wrapping_add(n);
    }

    /// Add `n` bytes to the bytes-received counter.
    pub fn add_bytes_received(&mut self, n: u64)
        ensures
            final(self)@ == counted(old(self)@, MetricsCall::BytesReceived(n)),
    {
        self.counters.bytes_received = self.counters.bytes_received.wrapping_add(n);
    }

    /// Increment the send-error counter by 1.
    pub fn inc_send_errors(&mut self)
        ensures
            final(self)@ == counted(old(self)@, MetricsCall::SendError),
    {
        self.counters.send_errors = self.counters.send_errors.wrapping_add(1);
    }

    /// Increment the recv-error counter by 1.
    pub fn inc_recv_errors(&mut self)
        ensures
            final(self)@ == counted(old(self)@, MetricsCall::RecvError),
    {
        self.counters.recv_errors = self.counters.recv_errors.wrapping_add(1);
    }

    // ── Connection counters ────────────────────────────────────────────

    /// Increment the active-connection count (also opens counter).
    pub fn inc_active_connections(&mut self)
        ensures
            final(self)@ == counted(old(self)@, MetricsCall::Opened),
    {
        self.counters.active_connections = self.counters.active_connections.wrapping_add(1);
        self.counters.connections_opened = self.counters.connections_opened.wrapping_add(1);
    }

    /// Decrement the active-connection count (also closes counter).
    pub fn dec_active_connections(&mut self)
        ensures
            final(self)@ == counted(old(self)@, MetricsCall::Closed),
    {
        self.counters.active_connections = self.counters.active_connections.wrapping_sub(1);
        self.counters.connections_closed = self.counters.connections_closed.wrapping_add(1);
    }

    /// Increment the reconnection counter by 1.
    pub fn inc_reconnections(&mut self)
        ensures
            final(self)@ == counted(old(self)@, MetricsCall::Reconnection),
    {
        self.counters.reconnections = self.counters.reconnections.wrapping_add(1);
    }

    /// Set the active connection count directly (used on close_all).
    pub fn set_active_connections(&mut self, n: u64)
        ensures
            final(self)@ == (MetricsSnapshot { active_connections: n, ..old(self)@ }),
    {
        self.counters.active_connections = n;
    }

    // ── Server-side counters ───────────────────────────────────────────

    /// Increment the connections-accepted counter by 1.
    pub fn inc_connections_accepted(&mut self)
        ensures
            final(self)@ == counted(old(self)@, MetricsCall::Accepted),
    {
        self.counters.connections_accepted = self.counters.connections_accepted.wrapping_add(1);
    }

    /// Increment the requests-processed counter by 1.
    pub fn inc_requests_processed(&mut self)
        ensures
            final(self)@ == counted(old(self)@, MetricsCall::RequestProcessed),
    {
        self.counters.requests_processed = self.counters.requests_processed.wrapping_add(1);
    }

    /// Increment the unknown-opcode counter by 1.
    pub fn inc_unknown_opcodes(&mut self)
        ensures
            final(self)@ == counted(old(self)@, MetricsCall::UnknownOpcode),
    {
        self.counters.unknown_opcodes = self.counters.unknown_opcodes.wrapping_add(1);
    }

    // ── Chunking counters ──────────────────────────────────────────────

    /// Increment the chunks-sent counter by 1.
    pub fn inc_chunks_sent(&mut self)
        ensures
            final(self)@ == counted(old(self)@, MetricsCall::ChunkSent),
    {
        self.counters.chunks_sent = self.counters.chunks_sent.wrapping_add(1);
    }

    /// Increment the chunks-received counter by 1.
    pub fn inc_chunks_received(&mut self)
        ensures
            final(self)@ == counted(old(self)@, MetricsCall::ChunkReceived),
    {
        self.counters.chunks_received = self.counters.chunks_received.wrapping_add(1);
    }

    // ── Snapshot ───────────────────────────────────────────────────────

    /// Take a point-in-time snapshot of all counters.
    pub fn snapshot(&self) -> (r: MetricsSnapshot)
        ensures
            r == self@,
    {
        self.counters
    }

    /// Reset all counters to zero.
    pub fn reset(&mut self)
        ensures
            final(self)@ == counted(old(self)@, MetricsCall::Reset),
    {
        *self = TransportMetrics::new();
    }
}

impl Default for TransportMetrics {
    fn default() -> (r: TransportMetrics)
        ensures
            r@ == zero_snapshot(),
    {
        TransportMetrics::new()
    }
}

/// Whatever is counted, and in whatever order, the active connections are those
/// that were opened without those that were closed, if they were so before. New
/// metrics are so. Only setting the active connections directly can break it.
pub proof fn law_active_is_opened_without_closed(s: MetricsSnapshot, calls: Seq<MetricsCall>)
    requires
        is_balanced(s),
    ensures
        is_balanced(zero_snapshot()),
        is_balanced(counted_all(s, calls)),
    decreases calls.len(),
{
    if calls.len() > 0 {
        law_active_is_opened_without_closed(s, calls.drop_last());
    }
}

/// What is counted moves its own counter, by one or by the count of bytes, and no
/// other one; an opened and a closed connection also move the active ones. A reset
/// sets all to zero.
pub proof fn law_counted(s: MetricsSnapshot, n: u64)
    ensures
        counted(s, MetricsCall::MessageSent) == (MetricsSnapshot {
            messages_sent: s.messages_sent.wrapping_add(1),
            ..s
        }),
        counted(s, MetricsCall::MessageReceived) == (MetricsSnapshot {
            messages_received: s.messages_received.wrapping_add(1),
            ..s
        }),
        counted(s, MetricsCall::BytesSent(n)) == (MetricsSnapshot {
            bytes_sent: s.bytes_sent.wrapping_add(n),
            ..s
        }),
        counted(s, MetricsCall::BytesReceived(n)) == (MetricsSnapshot {
            bytes_received: s.bytes_received.wrapping_add(n),
            ..s
        }),
        counted(s, MetricsCall::SendError) == (MetricsSnapshot {
            send_errors: s.send_errors.wrapping_add(1),
            ..s
        }),
        counted(s, MetricsCall::RecvError) == (MetricsSnapshot {
            recv_errors: s.recv_errors.wrapping_add(1),
            ..s
        }),
        counted(s, MetricsCall::Opened) == (MetricsSnapshot {
            active_connections: s.active_connections.wrapping_add(1),
            connections_opened: s.connections_opened.wrapping_add(1),
            ..s
        }),
        counted(s, MetricsCall::Closed) == (MetricsSnapshot {
            active_connections: s.active_connections.wrapping_sub(1),
            connections_closed: s.connections_closed.wrapping_add(1),
            ..s
        }),
        counted(s, MetricsCall::Reconnection) == (MetricsSnapshot {
            reconnections: s.reconnections.wrapping_add(1),
            ..s
        }),
        counted(s, MetricsCall::Accepted) == (MetricsSnapshot {
            connections_accepted: s.connections_accepted.wrapping_add(1),
            ..s
        }),
        counted(s, MetricsCall::RequestProcessed) == (MetricsSnapshot {
            requests_processed: s.requests_processed.wrapping_add(1),
            ..s
        }),
        counted(s, MetricsCall::UnknownOpcode) == (MetricsSnapshot {
            unknown_opcodes: s.unknown_opcodes.wrapping_add(1),
            ..s
        }),
        counted(s, MetricsCall::ChunkSent) == (MetricsSnapshot {
            chunks_sent: s.chunks_sent.wrapping_add(1),
            ..s
        }),
        counted(s, MetricsCall::ChunkReceived) == (MetricsSnapshot {
            chunks_received: s.chunks_received.wrapping_add(1),
            ..s
        }),
        counted(s, MetricsCall::Reset) == zero_snapshot(),
{
}

/// In the snapshot of new metrics every counter is zero.
pub proof fn law_zero_snapshot()
    ensures
        ({
            let s = zero_snapshot();
            &&& s.messages_sent == 0 && s.messages_received == 0
            &&& s.bytes_sent == 0 && s.bytes_received == 0
            &&& s.active_connections == 0 && s.connections_opened == 0 && s.connections_closed == 0
            &&& s.send_errors == 0 && s.recv_errors == 0 && s.reconnections == 0
            &&& s.connections_accepted == 0 && s.requests_processed == 0 && s.unknown_opcodes == 0
            &&& s.chunks_sent == 0 && s.chunks_received == 0
        }),
{
}

/// The report tells every counter in decimal, whatever its value: four lines are
/// always there, and three more where they have something to tell.
pub proof fn law_report_tells_counters(s: MetricsSnapshot, uptime: Seq<char>)
    ensures
        ({
            let head = "Transport Metrics (uptime: "@ + uptime + "s)\n"@ + ("  Messages: "@ + decimal(
                s.messages_sent as nat,
            ) + " sent / "@ + decimal(s.messages_received as nat) + " received\n"@) + ("  Bytes: "@
                + decimal(s.bytes_sent as nat) + " sent / "@ + decimal(s.bytes_received as nat)
                + " received\n"@) + ("  Connections: "@ + decimal(s.active_connections as nat)
                + " active / "@ + decimal(s.connections_opened as nat) + " opened / "@) + decimal(
                s.connections_closed as nat,
            ) + " closed\n"@ + ("  Errors: "@ + decimal(s.send_errors as nat) + " send / "@ + decimal(
                s.recv_errors as nat,
            ) + " recv\n"@);
            let recycled = "  Reconnections: "@ + decimal(s.reconnections as nat) + "\n"@;
            let served = "  Server accepted: "@ + decimal(s.connections_accepted as nat)
                + " connections / "@ + decimal(s.requests_processed as nat)
                + " requests processed\n"@;
            let pieces = "  Chunks: "@ + decimal(s.chunks_sent as nat) + " sent / "@ + decimal(
                s.chunks_received as nat,
            ) + " received\n"@;
            let none = Seq::<char>::empty();
            report_text(s, uptime) == head + (if s.reconnections > 0 { recycled } else { none }) + (
            if s.connections_accepted > 0 { served } else { none }) + (if s.chunks_sent > 0
                || s.chunks_received > 0 { pieces } else { none })
        }),
{
}

} // verus!
