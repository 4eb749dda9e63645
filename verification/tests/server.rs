use zht::constants::{OPC_APPEND, OPC_INSERT, OPC_LOOKUP, OPC_REMOVE, REC_EMPTYKEY, REC_SUCC};
use zht::host_entity::HostEntity;
use zht::membership::{MembershipEntry, MembershipManager, NodeState};
use zht::migration::{MigrationAction, MigrationManager};
use zht::novoht::NoVoHT;
use zht::replication::{ReplicatedHTWorker, ReplicationManager};
use zht::server::{ServerMetrics, ServerMetricsSnapshot, ZHTServer};
use zht::worker::{HTWorker, HTWorkerMetrics};
use zht::zpack::ZPack;

fn make_host(port: u16) -> HostEntity {
    HostEntity::new("localhost", port)
}

fn membership(nodes: Vec<HostEntity>) -> MembershipManager {
    MembershipManager::new(make_host(50000), nodes, 0)
}

fn three_members() -> MembershipManager {
    membership(vec![make_host(50001), make_host(50002), make_host(50003)])
}

fn make_replication_manager(num_replicas: u32, replication_type: u32) -> ReplicationManager {
    ReplicationManager::new(num_replicas, replication_type)
}

fn make_migration_manager(enabled: bool) -> MigrationManager {
    MigrationManager::new(enabled)
}

fn make_replicated_worker(
    num_replicas: u32,
    replication_type: u32,
) -> (ReplicatedHTWorker, MembershipManager) {
    let worker = HTWorker::new(NoVoHT::new());
    let members = membership(vec![make_host(50001), make_host(50002)]);
    let replication = ReplicationManager::new(num_replicas, replication_type);
    (ReplicatedHTWorker::new(worker, replication), members)
}

#[test]
fn test_membership_new_empty() {
    let mm = membership(vec![]);
    assert_eq!(mm.member_count(), 0);
    assert_eq!(mm.members().len(), 0);
}

#[test]
fn test_membership_new_with_initial() {
    let mm = membership(vec![make_host(50001), make_host(50002)]);
    assert_eq!(mm.member_count(), 2);
    assert_eq!(mm.members().len(), 2);
}

#[test]
fn test_membership_excludes_self() {
    let mm = membership(vec![make_host(50000), make_host(50001)]);
    // Self should be excluded
    assert_eq!(mm.member_count(), 1);
    assert_eq!(mm.members().len(), 1);
    assert!(mm.members()[0].host.port == 50001);
}

#[test]
fn test_membership_add_member() {
    let mut mm = membership(vec![]);
    mm.add_member(make_host(50001), 0);
    assert_eq!(mm.member_count(), 1);
}

#[test]
fn test_membership_add_duplicate_ignored() {
    let mut mm = membership(vec![make_host(50001)]);
    mm.add_member(make_host(50001), 0);
    assert_eq!(mm.member_count(), 1);
}

#[test]
fn test_membership_add_self_ignored() {
    let mut mm = membership(vec![]);
    mm.add_member(make_host(50000), 0);
    assert_eq!(mm.member_count(), 0);
}

#[test]
fn test_membership_remove_member() {
    let mut mm = membership(vec![make_host(50001), make_host(50002)]);
    mm.remove_member("localhost", 50001);
    assert_eq!(mm.member_count(), 1);
    assert!(mm.is_alive("localhost", 50002));
}

#[test]
fn test_membership_mark_alive() {
    let mut mm = membership(vec![make_host(50001)]);
    mm.mark_dead("localhost", 50001);
    assert!(!mm.is_alive("localhost", 50001));
    mm.mark_alive("localhost", 50001, 0);
    assert!(mm.is_alive("localhost", 50001));
}

#[test]
fn test_membership_mark_suspect() {
    let mut mm = membership(vec![make_host(50001)]);
    mm.mark_suspect("localhost", 50001, 0);
    assert!(!mm.is_alive("localhost", 50001));
    // Check it's in suspect state
    let members = mm.members();
    assert_eq!(members[0].state, NodeState::Suspect);
}

#[test]
fn test_membership_mark_dead() {
    let mut mm = membership(vec![make_host(50001)]);
    mm.mark_dead("localhost", 50001);
    assert!(!mm.is_alive("localhost", 50001));
    let members = mm.members();
    assert_eq!(members[0].state, NodeState::Dead);
}

#[test]
fn test_membership_is_alive() {
    let mm = membership(vec![make_host(50001)]);
    assert!(mm.is_alive("localhost", 50001));
    assert!(!mm.is_alive("localhost", 65535));
}

#[test]
fn test_membership_check_health() {
    let mut mm = membership(vec![make_host(50001)]);
    // All members start as alive with recent heartbeat, so no change
    mm.check_health(0, 30_000_000_000);
    assert_eq!(mm.member_count(), 1);

    // The timeout has passed by one nanosecond
    mm.check_health(30_000_000_001, 30_000_000_000);
    assert_eq!(mm.member_count(), 0);
    assert_eq!(mm.members()[0].state, NodeState::Suspect);

    // With no time allowed, a fresh heartbeat is still in time
    mm.mark_alive("localhost", 50001, 7);
    mm.check_health(7, 0);
    assert_eq!(mm.member_count(), 1);
    mm.check_health(8, 0);
    assert_eq!(mm.member_count(), 0);
}

#[test]
fn test_membership_active_members() {
    let mut mm = membership(vec![make_host(50001), make_host(50002)]);
    mm.mark_dead("localhost", 50002);
    let active = mm.active_members();
    assert_eq!(active.len(), 1);
    assert_eq!(active[0].port, 50001);
}

#[test]
fn test_membership_resolve_node() {
    let mm = membership(vec![make_host(50001), make_host(50002), make_host(50003)]);
    let node = mm.resolve_node("test_key");
    assert!(node.is_some());
    // Same key should always resolve to same node
    let node2 = mm.resolve_node("test_key");
    assert_eq!(node.unwrap(), node2.unwrap());
}

#[test]
fn test_membership_resolve_node_empty() {
    let mm = membership(vec![]);
    assert!(mm.resolve_node("key").is_none());
}

#[test]
fn test_membership_resolve_node_distribution() {
    let mm = membership(vec![
            make_host(50001),
            make_host(50002),
            make_host(50003),
            make_host(50004),
        ]);
    // With 4 nodes, we should see keys distributed across them
    let mut nodes: std::collections::HashSet<String> = std::collections::HashSet::new();
    for i in 0..100 {
        let node = mm.resolve_node(&format!("key_{}", i)).unwrap();
        nodes.insert(node.address());
    }
    // Should have keys on at least 2 different nodes (very unlikely to all hash to 1)
    assert!(nodes.len() >= 2, "Expected distribution across nodes, got: {:?}", nodes);
}

#[test]
fn test_membership_self_node() {
    let self_host = make_host(50000);
    let mm = MembershipManager::new(self_host.clone(), vec![], 0);
    assert_eq!(mm.self_node(), &self_host);
}

#[test]
fn test_replication_disabled() {
    let rm = make_replication_manager(2, 0);
    assert!(!rm.is_replication_enabled());
}

#[test]
fn test_replication_enabled() {
    let rm = make_replication_manager(2, 1);
    assert!(rm.is_replication_enabled());
}

#[test]
fn test_replication_zero_replicas() {
    let rm = make_replication_manager(0, 1);
    assert!(!rm.is_replication_enabled());
}

#[test]
fn test_replication_replica_count() {
    let rm = make_replication_manager(3, 1);
    assert_eq!(rm.replica_count(), 3);
}

#[test]
fn test_replication_type() {
    let rm = make_replication_manager(2, 1);
    assert_eq!(rm.replication_type(), 1);
}

#[test]
fn test_replication_get_replica_nodes() {
    let rm = make_replication_manager(2, 1);
    let replicas = rm.get_replica_nodes(&three_members(), "test_key");
    assert_eq!(replicas.len(), 2);
}

#[test]
fn test_replication_get_replica_nodes_disabled() {
    let rm = make_replication_manager(0, 1);
    let replicas = rm.get_replica_nodes(&three_members(), "test_key");
    assert!(replicas.is_empty());
}

#[test]
fn test_replication_get_replica_nodes_wraps_around() {
    let rm = make_replication_manager(2, 1);
    let r1 = rm.get_replica_nodes(&three_members(), "key1");
    let r2 = rm.get_replica_nodes(&three_members(), "key1");
    // Same key should produce same replicas
    assert_eq!(r1, r2);
}

#[test]
fn test_replication_no_members() {
    let rm = ReplicationManager::new(2, 1);
    assert!(rm.get_replica_nodes(&membership(vec![]), "key").is_empty());
}

#[test]
fn test_migration_enabled() {
    let mm = make_migration_manager(true);
    assert!(mm.is_migration_enabled());
}

#[test]
fn test_migration_disabled() {
    let mm = make_migration_manager(false);
    assert!(!mm.is_migration_enabled());
}

#[test]
fn test_migration_not_migrating_initially() {
    let mm = make_migration_manager(true);
    assert!(!mm.is_migrating());
}

#[test]
fn test_migration_calculate_plan_empty() {
    let mm = make_migration_manager(true);
    let plan = mm.calculate_migration_plan(&membership(vec![]), &NoVoHT::new(), &vec![], &vec![]);
    assert!(plan.is_empty());
}

#[test]
fn test_migration_calculate_plan_same_members() {
    let mm = make_migration_manager(true);
    let members = vec![make_host(50001), make_host(50002)];
    let plan = mm.calculate_migration_plan(&membership(vec![]), &NoVoHT::new(), &members, &members);
    assert!(plan.is_empty());
}

#[test]
fn test_migration_receive_keys() {
    let mut store = NoVoHT::new();
    let mm = MigrationManager::new(true);

    mm.receive_migrated_keys(&mut store, &vec![
        ("key1".to_string(), "val1".to_string()),
        ("key2".to_string(), "val2".to_string()),
    ]);

    assert_eq!(store.len(), 2);
    assert_eq!(store.get("key1").unwrap(), "val1");
    assert_eq!(store.get("key2").unwrap(), "val2");
}

#[test]
fn test_migration_get_keys_for_node() {
    let mut store = NoVoHT::new();
    // Insert some keys
    store.put("key1", "val1").unwrap();
    store.put("key2", "val2").unwrap();

    let members = membership(vec![make_host(50001)]);
    let mm = MigrationManager::new(true);

    // Keys are resolved against alive members
    let keys = mm.get_keys_for_node(&members, &store, "localhost", 50001);
    // With only 1 member (50001), all keys hash to that node
    assert_eq!(keys.len(), 2);
}

#[test]
fn test_metrics_initial() {
    let m = ServerMetrics::new();
    assert_eq!(m.connections_total, 0);
    assert_eq!(m.connections_active, 0);
    assert_eq!(m.bytes_received, 0);
    assert_eq!(m.bytes_sent, 0);
}

#[test]
fn test_metrics_connection_accepted() {
    let mut m = ServerMetrics::new();
    m.record_connection_accepted();
    assert_eq!(m.connections_accepted, 1);
    assert_eq!(m.connections_total, 1);
    assert_eq!(m.connections_active, 1);
}

#[test]
fn test_metrics_connection_closed() {
    let mut m = ServerMetrics::new();
    m.record_connection_accepted();
    m.record_connection_accepted();
    m.record_connection_closed();
    assert_eq!(m.connections_active, 1);
}

#[test]
fn test_metrics_bytes() {
    let mut m = ServerMetrics::new();
    m.record_bytes_received(1024);
    m.record_bytes_received(512);
    m.record_bytes_sent(2048);
    assert_eq!(m.bytes_received, 1536);
    assert_eq!(m.bytes_sent, 2048);
}

#[test]
fn test_metrics_connection_rejected() {
    let mut m = ServerMetrics::new();
    m.record_connection_rejected();
    assert_eq!(m.connections_rejected, 1);
}

#[test]
fn test_metrics_snapshot() {
    let mut m = ServerMetrics::new();
    m.record_connection_accepted();
    m.record_bytes_received(100);
    m.record_bytes_sent(200);

    let snap = m.snapshot(42, 3, 2);
    assert_eq!(snap.connections_accepted, 1);
    assert_eq!(snap.bytes_received, 100);
    assert_eq!(snap.bytes_sent, 200);
    assert_eq!(snap.storage_entries, 42);
    assert_eq!(snap.member_count, 3);
    assert_eq!(snap.alive_members, 2);
}

#[test]
fn lib_test_metrics_default() {
    let m = ServerMetrics::default();
    assert_eq!(m.connections_total, 0);
}

#[test]
fn test_metrics_update_worker_metrics() {
    let mut m = ServerMetrics::new();
    let mut wm = HTWorkerMetrics::default();
    wm.total_operations = 42;
    m.update_worker_metrics(wm);
    let snap = m.snapshot(0, 0, 0);
    assert_eq!(snap.worker_metrics.total_operations, 42);
}

#[test]
fn test_server_creation() {
    let store = NoVoHT::new();
    let server = ZHTServer::new_with_store(
        store,
        make_host(50000),
        vec![make_host(50001)],
        0,
        0,
        true,
        0,
    );
    assert!(server.health_check());
    let _ = server.membership.member_count();
}

#[test]
fn test_server_store_access() {
    let store = NoVoHT::new();
    let mut server = ZHTServer::new_with_store(
        store,
        make_host(50000),
        vec![],
        0,
        0,
        true,
        0,
    );
    server.store.put("key", "value").unwrap();
    assert_eq!(server.store().get("key").unwrap(), "value");
}

#[test]
fn test_server_health_check() {
    let store = NoVoHT::new();
    let server = ZHTServer::new_with_store(
        store,
        make_host(50000),
        vec![],
        0,
        0,
        true,
        0,
    );
    assert!(server.health_check());
}

#[test]
fn test_server_status() {
    let store = NoVoHT::new();
    let mut server = ZHTServer::new_with_store(
        store,
        make_host(50000),
        vec![make_host(50001)],
        0,
        0,
        true,
        0,
    );
    let status = server.status();
    assert_eq!(status.member_count, 1);
    assert_eq!(status.alive_members, 1);
    assert_eq!(status.storage_entries, 0);
}

#[test]
fn test_server_with_replication() {
    let store = NoVoHT::new();
    let server = ZHTServer::new_with_store(
        store,
        make_host(50000),
        vec![make_host(50001), make_host(50002), make_host(50003)],
        2,
        1,
        true,
        0,
    );
    assert!(server.replication.is_replication_enabled());
    assert_eq!(server.replication.replica_count(), 2);
}

#[test]
fn test_replicated_worker_process_local() {
    let (mut rw, members) = make_replicated_worker(2, 0);
    let request = ZPack {
        opcode: OPC_INSERT.as_bytes().to_vec(),
        key: b"key".to_vec(),
        val: b"value".to_vec(),
        ..Default::default()
    };
    let response = rw.process_local(&request).response().unwrap();
    let status = String::from_utf8_lossy(&response.lease);
    assert!(status.starts_with(REC_SUCC));
    assert_eq!(rw.store().get("key").unwrap(), "value");
}

#[test]
fn test_replicated_worker_lookup() {
    let (mut rw, members) = make_replicated_worker(0, 0);
    // Insert first
    let insert_req = ZPack {
        opcode: OPC_INSERT.as_bytes().to_vec(),
        key: b"key".to_vec(),
        val: b"value".to_vec(),
        ..Default::default()
    };
    rw.process_local(&insert_req).response().unwrap();

    // Lookup
    let lookup_req = ZPack {
        opcode: OPC_LOOKUP.as_bytes().to_vec(),
        key: b"key".to_vec(),
        ..Default::default()
    };
    let response = rw.process_local(&lookup_req).response().unwrap();
    let status = String::from_utf8_lossy(&response.lease);
    assert!(status.starts_with(REC_SUCC));
}

#[test]
fn test_replicated_worker_empty_key_no_replication() {
    let (mut rw, members) = make_replicated_worker(2, 1);
    let request = ZPack {
        opcode: OPC_INSERT.as_bytes().to_vec(),
        key: vec![],
        val: b"value".to_vec(),
        ..Default::default()
    };
    let response = rw.process_with_replication(&members, &request).0.response().unwrap();
    let status = String::from_utf8_lossy(&response.lease);
    assert_eq!(status, REC_EMPTYKEY);
}

#[test]
fn test_replicated_worker_metrics() {
    let (mut rw, members) = make_replicated_worker(0, 0);
    let request = ZPack {
        opcode: OPC_LOOKUP.as_bytes().to_vec(),
        key: b"key".to_vec(),
        ..Default::default()
    };
    rw.process_local(&request).response().unwrap();
    let metrics = rw.metrics();
    assert_eq!(metrics.total_operations, 1);
    assert_eq!(metrics.lookup_count, 1);
}

#[test]
fn test_node_state_display() {
    assert_eq!(NodeState::Alive.to_string(), "Alive");
    assert_eq!(NodeState::Suspect.to_string(), "Suspect");
    assert_eq!(NodeState::Dead.to_string(), "Dead");
    assert_eq!(NodeState::Left.to_string(), "Left");
}

#[test]
fn test_node_state_equality() {
    assert_eq!(NodeState::Alive, NodeState::Alive);
    assert_ne!(NodeState::Alive, NodeState::Dead);
}

#[test]
fn test_snapshot_clone() {
    let snap = ServerMetricsSnapshot {
        connections_total: 10,
        connections_active: 2,
        connections_accepted: 10,
        connections_rejected: 0,
        bytes_received: 1000,
        bytes_sent: 2000,
        storage_entries: 50,
        worker_metrics: HTWorkerMetrics::default(),
        member_count: 3,
        alive_members: 3,
    };
    let snap2 = snap.clone();
    assert_eq!(snap.connections_total, snap2.connections_total);
}

#[test]
fn test_migration_action() {
    let action = MigrationAction {
        target_host: make_host(50001),
        keys: vec!["key1".to_string(), "key2".to_string()],
    };
    assert_eq!(action.keys.len(), 2);
    assert_eq!(action.target_host.port, 50001);
}

#[test]
fn test_membership_entry() {
    let entry = MembershipEntry {
        host: make_host(50001),
        state: NodeState::Alive,
        last_heartbeat: 0,
        joined_at: 0,
    };
    assert_eq!(entry.host.port, 50001);
    assert_eq!(entry.state, NodeState::Alive);
}

#[test]
fn test_replicated_worker_insert() {
    let (mut rw, members) = make_replicated_worker(2, 1);
    let request = ZPack {
        opcode: OPC_INSERT.as_bytes().to_vec(),
        key: b"key".to_vec(),
        val: b"value".to_vec(),
        ..Default::default()
    };
    let response = rw.process_with_replication(&members, &request).0.response().unwrap();
    let status = String::from_utf8_lossy(&response.lease);
    assert!(status.starts_with(REC_SUCC));
}

#[test]
fn test_replicated_worker_remove() {
    let (mut rw, members) = make_replicated_worker(0, 0);
    let insert_req = ZPack {
        opcode: OPC_INSERT.as_bytes().to_vec(),
        key: b"key".to_vec(),
        val: b"value".to_vec(),
        ..Default::default()
    };
    rw.process_local(&insert_req).response().unwrap();

    let remove_req = ZPack {
        opcode: OPC_REMOVE.as_bytes().to_vec(),
        key: b"key".to_vec(),
        ..Default::default()
    };
    let response = rw.process_with_replication(&members, &remove_req).0.response().unwrap();
    let status = String::from_utf8_lossy(&response.lease);
    assert!(status.starts_with(REC_SUCC));
}

#[test]
fn test_replicated_worker_append() {
    let (mut rw, members) = make_replicated_worker(0, 0);
    let insert_req = ZPack {
        opcode: OPC_INSERT.as_bytes().to_vec(),
        key: b"list".to_vec(),
        val: b"a".to_vec(),
        ..Default::default()
    };
    rw.process_local(&insert_req).response().unwrap();

    let append_req = ZPack {
        opcode: OPC_APPEND.as_bytes().to_vec(),
        key: b"list".to_vec(),
        val: b"b".to_vec(),
        ..Default::default()
    };
    let response = rw.process_with_replication(&members, &append_req).0.response().unwrap();
    let status = String::from_utf8_lossy(&response.lease);
    assert!(status.starts_with(REC_SUCC));
    assert_eq!(rw.store().get("list").unwrap(), "a:b");
}
