//! The ZHT server: its metrics, and the parts that it is wired together from.

use crate::config::{parameter_or, AppConfig};
use crate::constants::{CONF_NUM_REPLICAS, CONF_PORT, CONF_REPLICATION_TYPE};
use crate::framing::{counted_len, frame_len};
use crate::host_entity::{host_views, HostEntity};
use crate::membership::{
    alive_nodes, first_members, law_first_members, MemberView, MembershipManager, NodeState,
};
use crate::migration::MigrationManager;
use crate::novoht::NoVoHT;
use crate::replication::ReplicationManager;
use crate::worker::{
    after_poll, after_request, answer, is_callback, zero_metrics, HTWorker, HTWorkerMetrics,
    PendingCallback, Processed,
};
use crate::zpack::ZPack;
use vstd::prelude::*;

verus! {

// ── Server metrics ──────────────────────────────────────────────────────

/// A point-in-time snapshot of server metrics.
#[derive(Debug)]
pub struct ServerMetricsSnapshot {
    /// Total connections since server start.
    pub connections_total: u64,
    /// Currently active connections.
    pub connections_active: u64,
    /// Total connections accepted.
    pub connections_accepted: u64,
    /// Total connections rejected.
    pub connections_rejected: u64,
    /// Total bytes received.
    pub bytes_received: u64,
    /// Total bytes sent.
    pub bytes_sent: u64,
    /// Number of entries in the storage engine.
    pub storage_entries: usize,
    /// Snapshot of HTWorker operation metrics.
    pub worker_metrics: HTWorkerMetrics,
    /// Total number of members in the membership table.
    pub member_count: usize,
    /// Number of alive members.
    pub alive_members: usize,
}

impl Clone for ServerMetricsSnapshot {
    fn clone(&self) -> (r: ServerMetricsSnapshot)
        ensures
            r == *self,
    {
        ServerMetricsSnapshot {
            connections_total: self.connections_total,
            connections_active: self.connections_active,
            connections_accepted: self.connections_accepted,
            connections_rejected: self.connections_rejected,
            bytes_received: self.bytes_received,
            bytes_sent: self.bytes_sent,
            storage_entries: self.storage_entries,
            worker_metrics: self.worker_metrics.clone(),
            member_count: self.member_count,
            alive_members: self.alive_members,
        }
    }
}

/// Server-level observability metrics.
///
/// Tracks connections, bytes, and periodically snapshots HTWorker
/// operation metrics for aggregated monitoring. A counter starts again at zero
/// after its largest value.
#[derive(Debug)]
pub struct ServerMetrics {
    /// Total connections since start.
    pub connections_total: u64,
    /// Currently active connections.
    pub connections_active: u64,
    /// Total accepted connections.
    pub connections_accepted: u64,
    /// Total rejected connections.
    pub connections_rejected: u64,
    /// Total bytes received.
    pub bytes_received: u64,
    /// Total bytes sent.
    pub bytes_sent: u64,
    /// Snapshot of HTWorker metrics (updated periodically).
    pub worker_metrics: HTWorkerMetrics,
}

/// Metrics in which nothing was counted yet.
pub open spec fn zero_server_metrics() -> ServerMetrics {
    ServerMetrics {
        connections_total: 0,
        connections_active: 0,
        connections_accepted: 0,
        connections_rejected: 0,
        bytes_received: 0,
        bytes_sent: 0,
        worker_metrics: zero_metrics(),
    }
}

impl ServerMetrics {
    /// Create with zeroed counters.
    pub fn new() -> (r: ServerMetrics)
        ensures
            r == zero_server_metrics(),
    {
        ServerMetrics {
            connections_total: 0,
            connections_active: 0,
            connections_accepted: 0,
            connections_rejected: 0,
            bytes_received: 0,
            bytes_sent: 0,
            worker_metrics: HTWorkerMetrics::default(),
        }
    }

    /// Record that a connection was accepted.
    pub fn record_connection_accepted(&mut self)
        ensures
            *final(self) == (ServerMetrics {
                connections_accepted: old(self).connections_accepted.wrapping_add(1),
                connections_total: old(self).connections_total.wrapping_add(1),
                connections_active: old(self).connections_active.wrapping_add(1),
                ..*old(self)
            }),
    {
        self.connections_accepted = self.connections_accepted.wrapping_add(1);
        self.connections_total = self.connections_total.wrapping_add(1);
        self.connections_active = self.connections_active.wrapping_add(1);
    }

    /// Record that a connection was closed.
    pub fn record_connection_closed(&mut self)
        ensures
            *final(self) == (ServerMetrics {
                connections_active: old(self).connections_active.wrapping_sub(1),
                ..*old(self)
            }),
    {
        self.connections_active = self.connections_active.wrapping_sub(1);
    }

    /// Record bytes received.
    pub fn record_bytes_received(&mut self, n: u64)
        ensures
            *final(self) == (ServerMetrics {
                bytes_received: old(self).bytes_received.wrapping_add(n),
                ..*old(self)
            }),
    {
        self.bytes_received = self.bytes_received.wrapping_add(n);
    }

    /// Record bytes sent.
    pub fn record_bytes_sent(&mut self, n: u64)
        ensures
            *final(self) == (ServerMetrics {
                bytes_sent: old(self).bytes_sent.wrapping_add(n),
                ..*old(self)
            }),
    {
        self.bytes_sent = self.bytes_sent.wrapping_add(n);
    }

    /// Record a rejected connection.
    pub fn record_connection_rejected(&mut self)
        ensures
            *final(self) == (ServerMetrics {
                connections_rejected: old(self).connections_rejected.wrapping_add(1),
                ..*old(self)
            }),
    {
        self.connections_rejected = self.connections_rejected.wrapping_add(1);
    }

    /// Update the worker metrics snapshot.
    pub fn update_worker_metrics(&mut self, metrics: HTWorkerMetrics)
        ensures
            *final(self) == (ServerMetrics { worker_metrics: metrics, ..*old(self) }),
    {
        self.worker_metrics = metrics;
    }

    /// Take a point-in-time snapshot of all metrics.
    pub fn snapshot(&self, storage_entries: usize, member_count: usize, alive_members: usize) -> (r:
        ServerMetricsSnapshot)
        ensures
            r == self.snapshot_spec(storage_entries, member_count, alive_members),
    {
        ServerMetricsSnapshot {
            connections_total: self.connections_total,
            connections_active: self.connections_active,
            connections_accepted: self.connections_accepted,
            connections_rejected: self.connections_rejected,
            bytes_received: self.bytes_received,
            bytes_sent: self.bytes_sent,
            storage_entries,
            worker_metrics: self.worker_metrics.clone(),
            member_count,
            alive_members,
        }
    }

    /// The snapshot of all metrics.
    pub open spec fn snapshot_spec(
        &self,
        storage_entries: usize,
        member_count: usize,
        alive_members: usize,
    ) -> ServerMetricsSnapshot {
        ServerMetricsSnapshot {
            connections_total: self.connections_total,
            connections_active: self.connections_active,
            connections_accepted: self.connections_accepted,
            connections_rejected: self.connections_rejected,
            bytes_received: self.bytes_received,
            bytes_sent: self.bytes_sent,
            storage_entries,
            worker_metrics: self.worker_metrics,
            member_count,
            alive_members,
        }
    }
}

impl Default for ServerMetrics {
    fn default() -> (r: ServerMetrics)
        ensures
            r == zero_server_metrics(),
    {
        ServerMetrics::new()
    }
}

// ── ZHT Server ──────────────────────────────────────────────────────────

/// The main ZHT server orchestrator.
///
/// `ZHTServer` wires together all server components:
/// membership management, replication, migration, metrics, and the worker.
pub struct ZHTServer {
    /// Application configuration.
    pub config: Option<AppConfig>,
    /// Local NoVoHT storage engine.
    pub store: NoVoHT,
    /// The core HTWorker, which has a storage engine of its own.
    pub worker: HTWorker,
    /// Membership manager.
    pub membership: MembershipManager,
    /// Replication manager.
    pub replication: ReplicationManager,
    /// Migration manager.
    pub migration: MigrationManager,
    /// Server metrics.
    pub metrics: ServerMetrics,
}

impl ZHTServer {
    /// All parts are well-formed.
    pub open spec fn wf(&self) -> bool {
        self.store.wf() && self.worker.wf() && self.membership.wf()
    }

    /// Whether this is a fresh server with the given parts: its worker has
    /// processed nothing and stores nothing.
    pub open spec fn is_fresh(
        &self,
        store: NoVoHT,
        self_host: (Seq<char>, u16),
        nodes: Seq<(Seq<char>, u16)>,
        num_replicas: u32,
        replication_type: u32,
        migration_enabled: bool,
        now: u64,
    ) -> bool {
        &&& self.wf()
        &&& self.config is None
        &&& self.store == store
        &&& self.worker.store_spec()@ == Map::<Seq<char>, Seq<char>>::empty()
        &&& !self.worker.store_spec().is_persistent_spec()
        &&& self.worker.metrics_spec() == zero_metrics()
        &&& self.membership.me() == self_host
        &&& self.membership@ == first_members(nodes, self_host, now)
        &&& self.replication.replicas() == num_replicas
        &&& self.replication.type_code() == replication_type
        &&& self.migration.enabled() == migration_enabled
        &&& !self.migration.in_progress()
        &&& self.metrics == zero_server_metrics()
    }

    /// Create a new ZHT server from an `AppConfig`.
    ///
    /// Initializes all components from the configuration.
    pub fn new(config: AppConfig, store: NoVoHT, now: u64) -> (r: ZHTServer)
        requires
            config.zht.wf(),
            store.wf(),
        ensures
            r.is_fresh(
                store,
                ("0.0.0.0"@, parameter_or::<u16>(config.zht@, CONF_PORT@, 50000u16)),
                config.neighbors@,
                parameter_or::<u32>(config.zht@, CONF_NUM_REPLICAS@, 0u32),
                parameter_or::<u32>(config.zht@, CONF_REPLICATION_TYPE@, 0u32),
                true,
                now,
            ),
    {
        let self_host = HostEntity { host: "0.0.0.0".to_owned(), port: config.zht.port() };
        let num_replicas: u32 = config.zht.num_replicas();
        let replication_type: u32 = config.zht.replication_type();
        let neighbors = config.neighbors.neighbors;
        ZHTServer::new_with_store(
            store,
            self_host,
            neighbors,
            num_replicas,
            replication_type,
            true,
            now,
        )
    }

    /// Create a new ZHT server with explicit parameters.
    ///
    /// This is useful for testing and programmatic server creation
    /// without a config file.
    pub fn new_with_store(
        store: NoVoHT,
        self_host: HostEntity,
        initial_members: Vec<HostEntity>,
        num_replicas: u32,
        replication_type: u32,
        migration_enabled: bool,
        now: u64,
    ) -> (r: ZHTServer)
        requires
            store.wf(),
        ensures
            r.is_fresh(
                store,
                self_host@,
                host_views(initial_members@),
                num_replicas,
                replication_type,
                migration_enabled,
                now,
            ),
    {
        ZHTServer {
            config: None,
            store,
            worker: HTWorker::new(NoVoHT::new()),
            membership: MembershipManager::new(self_host, initial_members, now),
            replication: ReplicationManager::new(num_replicas, replication_type),
            migration: MigrationManager::new(migration_enabled),
            metrics: ServerMetrics::new(),
        }
    }

    /// Check server health.
    ///
    /// Returns `true` if at least one member is alive or the table of members
    /// is empty: single-node clusters are healthy.
    pub fn health_check(&self) -> (r: bool)
        ensures
            r == (alive_nodes(self.membership@).len() > 0 || self.membership@.len() == 0),
    {
        self.membership.member_count() > 0 || self.membership.total_count() == 0
    }

    /// Get a status snapshot, with the worker metrics brought up to date.
    pub fn status(&mut self) -> (r: ServerMetricsSnapshot)
        requires
            old(self).wf(),
        ensures
            *final(self) == (ZHTServer {
                metrics: ServerMetrics {
                    worker_metrics: old(self).worker.metrics_spec(),
                    ..old(self).metrics
                },
                ..*old(self)
            }),
            old(self).store@.dom().finite(),
            r.storage_entries == old(self).store@.dom().len(),
            r.member_count == old(self).membership@.len(),
            r.alive_members == alive_nodes(old(self).membership@).len(),
            r == final(self).metrics.snapshot_spec(
                r.storage_entries,
                r.member_count,
                r.alive_members,
            ),
    {
        let member_count: usize = self.membership.total_count();
        let alive_members: usize = self.membership.member_count();
        self.metrics.update_worker_metrics(self.worker.metrics());
        self.metrics.snapshot(self.store.len(), member_count, alive_members)
    }

    /// Access the storage engine.
    pub fn store(&self) -> (r: &NoVoHT)
        ensures
            *r == self.store,
    {
        &self.store
    }

    /// Takes in a request of a connection: its bytes are counted, and the
    /// worker processes it. A response is counted before it is sent.
    pub fn handle_request(&mut self, request: &ZPack) -> (r: Processed)
        requires
            old(self).wf(),
        ensures
            final(self).wf(),
            after_request(old(self).worker, request@, final(self).worker),
            *final(self) == (ZHTServer {
                worker: final(self).worker,
                metrics: ServerMetrics {
                    bytes_received: old(self).metrics.bytes_received.wrapping_add(
                        counted_len(request@),
                    ),
                    ..old(self).metrics
                },
                ..*old(self)
            }),
            match r {
                Processed::Done(response) => !is_callback(request@) && response@ == answer(
                    old(self).worker.store_spec()@,
                    request@,
                ),
                Processed::Waiting(callback) => is_callback(request@) && callback.is_for(request@),
            },
    {
        self.metrics.record_bytes_received(frame_len(request));
        self.worker.process(request)
    }

    /// Looks whether a waiting callback can be answered.
    pub fn poll(&mut self, callback: &PendingCallback, elapsed_ms: u64) -> (r: Option<ZPack>)
        requires
            old(self).wf(),
        ensures
            final(self).wf(),
            after_poll(old(self).worker, callback, elapsed_ms, r, final(self).worker),
            *final(self) == (ZHTServer { worker: final(self).worker, ..*old(self) }),
    {
        self.worker.poll(callback, elapsed_ms)
    }

    /// Counts the bytes of a response that is sent.
    pub fn record_response(&mut self, response: &ZPack)
        ensures
            *final(self) == (ZHTServer {
                metrics: ServerMetrics {
                    bytes_sent: old(self).metrics.bytes_sent.wrapping_add(
                        counted_len(response@),
                    ),
                    ..old(self).metrics
                },
                ..*old(self)
            }),
    {
        self.metrics.record_bytes_sent(frame_len(response));
    }
}

/// What a new server is made of: the given store; a worker that has processed and
/// stored nothing; the given nodes but itself as members, in order and alive; and
/// the given settings.
pub proof fn law_fresh_server(
    server: &ZHTServer,
    store: NoVoHT,
    self_host: (Seq<char>, u16),
    nodes: Seq<(Seq<char>, u16)>,
    num_replicas: u32,
    replication_type: u32,
    migration_enabled: bool,
    now: u64,
)
    requires
        server.is_fresh(
            store,
            self_host,
            nodes,
            num_replicas,
            replication_type,
            migration_enabled,
            now,
        ),
    ensures
        server.wf(),
        server.store == store,
        server.worker.store_spec()@ == Map::<Seq<char>, Seq<char>>::empty(),
        server.worker.metrics_spec().total_operations == 0,
        server.worker.metrics_spec().total_errors == 0,
        server.membership.me() == self_host,
        server.membership@ == nodes.filter_map(
            |node: (Seq<char>, u16)|
                if node == self_host {
                    None
                } else {
                    Some(
                        MemberView {
                            host: node,
                            state: NodeState::Alive,
                            last_heartbeat: now,
                            joined_at: now,
                        },
                    )
                },
        ),
        server.replication.replicas() == num_replicas,
        server.replication.type_code() == replication_type,
        server.migration.enabled() == migration_enabled,
        !server.migration.in_progress(),
        server.metrics.connections_total == 0,
        server.metrics.connections_active == 0,
        server.metrics.connections_accepted == 0,
        server.metrics.connections_rejected == 0,
        server.metrics.bytes_received == 0,
        server.metrics.bytes_sent == 0,
{
    law_first_members(nodes, self_host, now);
}

/// A snapshot holds every counter as it is.
pub proof fn law_server_snapshot(
    metrics: &ServerMetrics,
    storage_entries: usize,
    member_count: usize,
    alive_members: usize,
)
    ensures
        ({
            let s = metrics.snapshot_spec(storage_entries, member_count, alive_members);
            &&& s.connections_total == metrics.connections_total
            &&& s.connections_active == metrics.connections_active
            &&& s.connections_accepted == metrics.connections_accepted
            &&& s.connections_rejected == metrics.connections_rejected
            &&& s.bytes_received == metrics.bytes_received
            &&& s.bytes_sent == metrics.bytes_sent
            &&& s.worker_metrics == metrics.worker_metrics
            &&& s.storage_entries == storage_entries
            &&& s.member_count == member_count
            &&& s.alive_members == alive_members
        }),
{
}

} // verus!
