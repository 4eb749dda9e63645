use zht::cache::LruCache;
use zht::constants::{OPC_APPEND, OPC_INSERT, OPC_LOOKUP, OPC_REMOVE, OPC_STCHGCB};
use zht::config::{AppConfig, FileContents};
use zht::error::ZhtError;
use zht::host_entity::HostEntity;
use zht::membership::{resolve_owner, MembershipManager, NodeState};
use zht::migration::{MigrationAction, MigrationManager, MigrationStep};
use zht::novoht::NoVoHT;
use zht::replication::{replicate, ReplicatedHTWorker, ReplicationManager};
use zht::server::ZHTServer;
use zht::worker::{HTWorker, Processed};
use zht::zpack::ZPack;

fn node(port: u16) -> HostEntity {
    HostEntity::new("n", port)
}

fn members(ports: &[u16]) -> MembershipManager {
    MembershipManager::new(node(0), ports.iter().map(|p| node(*p)).collect(), 0)
}

fn ports(nodes: &[HostEntity]) -> Vec<u16> {
    nodes.iter().map(|n| n.port).collect()
}

fn request(code: &str, key: &str, val: &str) -> ZPack {
    ZPack {
        opcode: code.as_bytes().to_vec(),
        key: key.as_bytes().to_vec(),
        val: val.as_bytes().to_vec(),
        ..ZPack::default()
    }
}

fn success() -> ZPack {
    ZPack { lease: b"000".to_vec(), ..ZPack::default() }
}

// ── Membership ──────────────────────────────────────────────────────────

#[test]
fn keys_belong_to_members_that_are_alive() {
    let mut mm = members(&[1, 2, 3]);
    // "a" hashes to 97
    assert_eq!(mm.resolve_node("a").unwrap().port, 2);
    mm.mark_dead("n", 2);
    assert_eq!(ports(&mm.active_members()), vec![1, 3]);
    assert_eq!(mm.resolve_node("a").unwrap().port, 3);
    mm.mark_suspect("n", 1, 5);
    mm.mark_dead("n", 3);
    assert_eq!(mm.resolve_node("a"), None);
    assert_eq!(resolve_owner("a", &vec![]), None);
    assert_eq!((mm.member_count(), mm.total_count()), (0, 3));
}

#[test]
fn health_check_suspects_stale_members() {
    let mut mm = members(&[1, 2]);
    mm.mark_alive("n", 2, 50);
    mm.check_health(100, 50);
    assert!(!mm.is_alive("n", 1));
    assert!(mm.is_alive("n", 2));
    mm.mark_alive("n", 1, 100);
    mm.check_health(101, 50);
    assert!(mm.is_alive("n", 1));
    assert!(!mm.is_alive("n", 2));
    assert_eq!(mm.members()[1].last_heartbeat, 50);
    mm.mark_dead("n", 1);
    mm.check_health(1000, 50);
    assert_eq!(mm.members()[0].state, NodeState::Dead);
    assert_eq!(NodeState::Left.to_string(), "Left");
}

#[test]
fn members_come_and_go() {
    let mut mm = members(&[1]);
    mm.add_member(node(2), 7);
    mm.add_member(node(2), 8);
    mm.add_member(node(0), 8);
    assert_eq!(mm.total_count(), 2);
    assert_eq!(mm.members()[1].joined_at, 7);
    mm.remove_member("n", 1);
    mm.remove_member("n", 9);
    assert_eq!(ports(&mm.active_members()), vec![2]);
    assert_eq!(mm.self_node(), &node(0));
}

// ── Replication ─────────────────────────────────────────────────────────

#[test]
fn replicas_stand_behind_the_primary() {
    let mm = members(&[1, 2, 3, 4]);
    // "ab" hashes to 6363201, which routes to the second of four
    let of = |n: u32| ports(&ReplicationManager::new(n, 1).get_replica_nodes(&mm, "ab"));
    assert_eq!(of(0), vec![]);
    assert_eq!(of(2), vec![3, 4]);
    assert_eq!(of(3), vec![3, 4, 1]);
    // With more replicas than other nodes they go round.
    assert_eq!(of(5), vec![3, 4, 1, 2, 3]);
    assert_eq!(ReplicationManager::new(2, 1).replication_type(), 1);
}

#[test]
fn writes_are_forwarded() {
    let mm = members(&[1, 2, 3, 4]);
    let rm = ReplicationManager::new(2, 1);
    let out = rm.replicate_insert(&mm, "ab", b"v");
    assert_eq!(out.iter().map(|m| m.host.port).collect::<Vec<u16>>(), vec![3, 4]);
    assert!(out.iter().all(|m| m.request == request(OPC_INSERT, "ab", "v")));
    assert_eq!(rm.replicate_remove(&mm, "ab")[0].request, request(OPC_REMOVE, "ab", ""));
    assert_eq!(rm.replicate_append(&mm, "ab", b"w")[1].request, request(OPC_APPEND, "ab", "w"));
    assert!(ReplicationManager::new(2, 0).replicate_insert(&mm, "ab", b"v").is_empty());
    assert!(ReplicationManager::new(0, 1).replicate_remove(&mm, "ab").is_empty());
}

#[test]
fn replica_follows_the_primary() {
    let mm = members(&[1]);
    let mut primary = ReplicatedHTWorker::new(HTWorker::new(NoVoHT::new()), ReplicationManager::new(1, 1));
    let mut replica = HTWorker::new(NoVoHT::new());
    for z in [
        request(OPC_INSERT, "a", "1"),
        request(OPC_INSERT, "b", "2"),
        request(OPC_APPEND, "a", "x"),
        request(OPC_REMOVE, "b", ""),
        request(OPC_REMOVE, "b", ""),
        request(OPC_APPEND, "c", "\u{e9}"),
    ] {
        for message in primary.process_with_replication(&mm, &z).1 {
            let _ = replica.process(&message.request);
        }
        let (mut p, mut r) = (primary.store().entries(), replica.store().entries());
        p.sort();
        r.sort();
        assert_eq!(p, r);
    }
    assert_eq!(replica.store().len(), 2);
}

#[test]
fn only_successful_writes_are_replicated() {
    let mm = members(&[1, 2]);
    let mut w = ReplicatedHTWorker::new(HTWorker::new(NoVoHT::new()), ReplicationManager::new(1, 1));
    let mut count = |z: &ZPack| w.process_with_replication(&mm, z).1.len();
    assert_eq!(count(&request(OPC_REMOVE, "k", "")), 0);
    assert_eq!(count(&request(OPC_INSERT, "k", "v")), 1);
    assert_eq!(count(&request(OPC_APPEND, "k", "v")), 1);
    assert_eq!(count(&request(OPC_LOOKUP, "k", "")), 0);
    assert_eq!(count(&request(OPC_INSERT, "", "v")), 0);
    assert_eq!(count(&request("005", "k", "x")), 0);
    assert_eq!(count(&request(OPC_REMOVE, "k", "")), 1);
    assert_eq!(w.metrics().total_operations, 7);
    let (waiting, none) = w.process_with_replication(&mm, &request(OPC_STCHGCB, "k", "v"));
    assert!(none.is_empty());
    match waiting {
        Processed::Waiting(callback) => assert!(w.poll(&callback, 100).is_some()),
        Processed::Done(_) => panic!("answered at once"),
    }
    // A response is not asked more than whether it says success.
    let rm = ReplicationManager::new(1, 1);
    assert_eq!(replicate(&rm, &mm, &request(OPC_INSERT, "k", "v"), &success()).len(), 1);
    assert_eq!(replicate(&rm, &mm, &request(OPC_INSERT, "k", "v"), &ZPack::default()).len(), 0);
}

// ── Migration ───────────────────────────────────────────────────────────

fn store(keys: &[&str]) -> NoVoHT {
    let mut s = NoVoHT::new();
    for k in keys {
        s.put(k, &format!("value of {}", k)).unwrap();
    }
    s
}

fn plan_of(actions: &[MigrationAction]) -> Vec<(u16, Vec<String>)> {
    let mut p: Vec<(u16, Vec<String>)> = actions
        .iter()
        .map(|a| {
            let mut keys = a.keys.clone();
            keys.sort();
            (a.target_host.port, keys)
        })
        .collect();
    p.sort();
    p
}

#[test]
fn keys_move_to_their_new_owners() {
    // Among two nodes k0 and k2 route to the second, k1 and k3 to the first;
    // among three k1 routes to the first, k2 to the second, k0 and k3 to the third.
    let s = store(&["k0", "k1", "k2", "k3"]);
    let mm = members(&[]);
    let m = MigrationManager::new(true);
    let (two, three) = (vec![node(1), node(2)], vec![node(1), node(2), node(3)]);
    let plan = m.calculate_migration_plan(&mm, &s, &two, &three);
    assert_eq!(plan_of(&plan), vec![(3, vec!["k0".to_string(), "k3".to_string()])]);
    assert!(m.calculate_migration_plan(&mm, &s, &three, &three).is_empty());
    assert!(m.calculate_migration_plan(&mm, &s, &three, &vec![]).is_empty());
    // What would come to this node stays.
    let with_me = vec![node(1), node(2), node(0)];
    assert!(m.calculate_migration_plan(&mm, &s, &two, &with_me).is_empty());
    let mut mine = m.get_keys_for_node(&members(&[1, 2, 3]), &s, "n", 3);
    mine.sort();
    assert_eq!(mine, vec!["k0", "k3"]);
}

#[test]
fn check_queues_each_key_once() {
    let s = store(&["k0", "k1", "k2", "k3"]);
    let mm = members(&[1, 2]);
    let mut m = MigrationManager::new(true);
    let run = m.check_and_migrate(&mm, &s);
    assert_eq!(run.queued(), 4);
    assert_eq!(run.plan().iter().map(|a| a.keys.len()).sum::<usize>(), run.queued());
    assert_eq!(
        plan_of(run.plan()),
        vec![
            (1, vec!["k1".to_string(), "k3".to_string()]),
            (2, vec!["k0".to_string(), "k2".to_string()]),
        ],
    );
    assert!(m.is_migrating());
    assert_eq!(m.check_and_migrate(&mm, &s).queued(), 0);
    m.finish_migration();
    assert!(!m.is_migrating());
    assert!(m.check_and_migrate(&members(&[]), &s).plan().is_empty());
    assert!(!m.is_migrating());
    assert!(MigrationManager::new(false).check_and_migrate(&mm, &s).plan().is_empty());
}

#[test]
fn migration_runs_to_its_end() {
    let mut s = store(&["k0", "k1", "k2", "k3"]);
    let mm = members(&[1, 2]);
    let mut nodes = vec![HTWorker::new(NoVoHT::new()), HTWorker::new(NoVoHT::new())];
    let mut m = MigrationManager::new(true);
    let mut run = m.check_and_migrate(&mm, &s);
    let mut step = run.start(&s);
    let mut sent = 0;
    let total = loop {
        step = match step {
            MigrationStep::Send(message) => {
                sent += 1;
                let node = &mut nodes[message.host.port as usize - 1];
                let response = node.process(&message.request).response().unwrap();
                run.on_response(&mut s, &response)
            }
            MigrationStep::Done(total) => break total,
        };
    };
    m.finish_migration();
    assert_eq!((sent, total), (4, 4));
    assert!(s.is_empty());
    assert_eq!(nodes[0].store().get("k1").unwrap(), "value of k1");
    assert_eq!(nodes[0].store().get("k3").unwrap(), "value of k3");
    assert_eq!(nodes[1].store().get("k0").unwrap(), "value of k0");
    assert_eq!(nodes[1].store().get("k2").unwrap(), "value of k2");
}

#[test]
fn node_that_fails_loses_nothing() {
    let mut s = store(&["k0", "k1", "k2", "k3"]);
    let mm = members(&[1, 2]);
    let mut m = MigrationManager::new(true);
    let mut run = m.check_and_migrate(&mm, &s);
    let mut step = run.start(&s);
    let total = loop {
        step = match step {
            MigrationStep::Send(message) if message.host.port == 1 => {
                let error = ZhtError::SendFailed("gone".to_string());
                let words = run.failure(&error);
                assert!(words.starts_with("Failed to migrate key 'k"));
                assert!(words.ends_with("': send failed: gone"));
                run.on_failure(&s)
            }
            MigrationStep::Send(_) => run.on_response(&mut s, &success()),
            MigrationStep::Done(total) => break total,
        };
    };
    assert_eq!(total, 2);
    let mut left = s.keys();
    left.sort();
    assert_eq!(left, vec!["k1", "k3"]);
}

#[test]
fn migration_passes_over_keys_that_are_gone() {
    let mut s = store(&["k0", "k1"]);
    let mm = members(&[1, 2]);
    let mut run = MigrationManager::new(true).check_and_migrate(&mm, &s);
    s.remove("k0").unwrap();
    s.remove("k1").unwrap();
    assert!(matches!(run.start(&s), MigrationStep::Done(0)));
}

#[test]
fn keys_are_handed_over() {
    let mut s = store(&["k0", "k1", "k2"]);
    let mut target = HTWorker::new(NoVoHT::new());
    let m = MigrationManager::new(true);
    let keys = vec!["k0".to_string(), "k2".to_string(), "absent".to_string()];
    let mut transfer = m.migrate_keys_for_node(&s, keys);
    let mut sent = vec![];
    while let Some(next) = transfer.next_request() {
        sent.push(next.key.clone());
        let response = target.process(&next.request).response().unwrap();
        transfer.on_response(&response);
    }
    sent.sort();
    assert_eq!(sent, vec!["k0", "k2"]);
    assert_eq!(transfer.migrated_count(), 2);
    assert_eq!(transfer.finish(&mut s), 2);
    assert_eq!(s.keys(), vec!["k1"]);
    assert_eq!(target.store().get("k0").unwrap(), "value of k0");
    assert_eq!(target.store().len(), 2);
}

#[test]
fn refused_keys_are_not_counted() {
    let mut s = store(&["k"]);
    let m = MigrationManager::new(true);
    let mut transfer = m.migrate_keys_for_node(&s, vec!["k".to_string()]);
    transfer.on_response(&ZPack { lease: b"-03".to_vec(), ..ZPack::default() });
    assert_eq!(transfer.migrated_count(), 0);
    assert_eq!(transfer.finish(&mut s), 0);
    assert!(s.is_empty());
}

#[test]
fn failed_hand_over_keeps_the_keys() {
    let s = store(&["k"]);
    let transfer = MigrationManager::new(true).migrate_keys_for_node(&s, vec!["k".to_string()]);
    let error = ZhtError::Timeout { timeout_ms: 5000 };
    assert_eq!(
        transfer.on_failure(&error),
        "Failed to migrate key 'k': operation timed out after 5000ms",
    );
    assert!(s.contains("k"));
}

#[test]
fn received_pairs_are_stored() {
    let mut s = NoVoHT::new();
    let pairs = [("a", "1"), ("", "lost"), ("a", "2")];
    let pairs: Vec<(String, String)> = pairs.iter().map(|(k, v)| (k.to_string(), v.to_string())).collect();
    MigrationManager::new(false).receive_migrated_keys(&mut s, &pairs);
    assert_eq!(s.entries(), vec![("a".to_string(), "2".to_string())]);
}

// ── The server ──────────────────────────────────────────────────────────

#[test]
fn server_from_configuration() {
    let text = |s: &str| FileContents::Text(s.to_string());
    let config = AppConfig::load(
        "z",
        text("PORT 6000\nNUM_REPLICAS 2\nREPLICATION_TYPE 1\n"),
        "n",
        text("0.0.0.0 6000\na 1\n"),
    )
    .unwrap();
    let server = ZHTServer::new(config, NoVoHT::new(), 3);
    assert_eq!(server.membership.self_node().address(), "0.0.0.0:6000");
    assert_eq!(server.membership.total_count(), 1);
    assert_eq!(server.membership.members()[0].joined_at, 3);
    assert_eq!(server.replication.replica_count(), 2);
    assert!(server.replication.is_replication_enabled());
    assert!(server.migration.is_migration_enabled());
    assert!(server.health_check());
}

#[test]
fn server_counts_what_passes() {
    let mut server = ZHTServer::new_with_store(NoVoHT::new(), node(0), vec![node(1)], 0, 0, true, 0);
    let z = request(OPC_INSERT, "k", "v");
    let response = server.handle_request(&z).response().unwrap();
    server.record_response(&response);
    let status = server.status();
    // 4 + (2 + 3) + (2 + 1) + (2 + 1), and 4 + (2 + 3) + (2 + 1) + (2 + 3)
    assert_eq!((status.bytes_received, status.bytes_sent), (15, 17));
    assert_eq!(status.worker_metrics.insert_count, 1);
    assert_eq!((status.member_count, status.alive_members), (1, 1));
    // The worker has a store of its own.
    assert_eq!(status.storage_entries, 0);
    assert_eq!(server.worker.store().len(), 1);
    server.membership.mark_dead("n", 1);
    assert!(!server.health_check());
    match server.handle_request(&request(OPC_STCHGCB, "k", "v")) {
        Processed::Waiting(callback) => assert!(server.poll(&callback, 0).is_some()),
        Processed::Done(_) => panic!("answered at once"),
    }
}

// ── The cache ───────────────────────────────────────────────────────────

#[test]
fn least_recently_used_entry_is_dropped() {
    let mut cache: LruCache<u64, &str> = LruCache::new(2);
    cache.insert(1, "one");
    cache.insert(2, "two");
    assert_eq!(cache.fetch(&1), Some("one"));
    assert_eq!(cache.insert_with_eviction(3, "three"), Some("two"));
    assert!(cache.contains(&1));
    // Setting a key that is there drops nothing.
    assert_eq!(cache.insert_with_eviction(1, "uno"), None);
    assert_eq!(cache.len(), 2);
    assert_eq!(cache.fetch(&1), Some("uno"));
    cache.touch(&3);
    assert_eq!(cache.insert_with_eviction(4, "four"), Some("uno"));
    assert_eq!(cache.capacity(), 2);
}

#[test]
fn copied_action_is_the_same() {
    let action = MigrationAction {
        target_host: HostEntity::new("n", 3),
        keys: vec!["k0".to_string(), "k3".to_string()],
    };
    let mut copy = action.clone();
    assert_eq!(copy.target_host, action.target_host);
    assert_eq!(copy.keys, action.keys);
    copy.keys.push("k9".to_string());
    assert_eq!(action.keys.len(), 2);
}
