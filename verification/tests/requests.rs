use zht::client::{parse_status, ZHTClient};
use zht::config::FileContents;
use zht::constants::{
    OPC_APPEND, OPC_CMPSWP, OPC_INSERT, OPC_LOOKUP, OPC_REMOVE, OPC_STCHGCB, REC_CLTFAIL,
    REC_EMPTYKEY, REC_NONEXISTKEY, REC_SCCBPOLLTRY, REC_SUCC, REC_UOPC,
};
use zht::error::{ZhtError, ZhtResult};
use zht::novoht::NoVoHT;
use zht::replication::Outgoing;
use zht::worker::{HTWorker, Operation, PendingCallback, Processed};
use zht::zpack::ZPack;

fn client(neighbors: &str) -> ZHTClient {
    let mut c = ZHTClient::new(
        "zht.conf",
        FileContents::Text(String::new()),
        "neighbor.conf",
        FileContents::Text(neighbors.to_string()),
    )
    .unwrap();
    c.init();
    c
}

fn answered(worker: &mut HTWorker, message: ZhtResult<Outgoing>) -> ZPack {
    worker.process(&message.unwrap().request).response().unwrap()
}

fn with_lease(lease: &[u8]) -> ZPack {
    ZPack { lease: lease.to_vec(), ..ZPack::default() }
}

// ── Client and worker ───────────────────────────────────────────────────

#[test]
fn insert_then_lookup() {
    let (c, mut w) = (client("a 1\n"), HTWorker::new(NoVoHT::new()));
    for value in ["value", "", "000", "日本語", "a b"] {
        let r = answered(&mut w, c.insert("key", value));
        c.on_insert(&r).unwrap();
        let r = answered(&mut w, c.lookup("key"));
        assert_eq!(c.on_lookup("key", &r).unwrap(), value);
    }
}

#[test]
fn remove_then_lookup() {
    let (c, mut w) = (client("a 1\n"), HTWorker::new(NoVoHT::new()));
    let _ = answered(&mut w, c.insert("key", "v"));
    let r = answered(&mut w, c.remove("key"));
    c.on_remove("key", &r).unwrap();
    let r = answered(&mut w, c.lookup("key"));
    assert!(matches!(c.on_lookup("key", &r), Err(ZhtError::KeyNotFound(k)) if k == "key"));
    let r = answered(&mut w, c.remove("key"));
    assert!(matches!(c.on_remove("key", &r), Err(ZhtError::KeyNotFound(k)) if k == "key"));
}

#[test]
fn append_then_lookup() {
    let (c, mut w) = (client("a 1\n"), HTWorker::new(NoVoHT::new()));
    let r = answered(&mut w, c.append("key", "one"));
    c.on_append(&r).unwrap();
    let _ = answered(&mut w, c.append("key", "two"));
    let r = answered(&mut w, c.lookup("key"));
    assert_eq!(c.on_lookup("key", &r).unwrap(), "one:two");
}

#[test]
fn compare_swap_gives_the_current_value() {
    let (c, mut w) = (client("a 1\n"), HTWorker::new(NoVoHT::new()));
    let mut swap = |expected: &str, new: &str| {
        let r = answered(&mut w, c.compare_swap("key", expected, new));
        let lease = String::from_utf8(r.lease.clone()).unwrap();
        (lease, c.on_compare_swap("key", new, &r).unwrap())
    };
    let case = |lease: &str, value: &str| (lease.to_string(), value.to_string());
    assert_eq!(swap("anything", "first"), case("000", "first"));
    assert_eq!(swap("first", "second"), case("000", "second"));
    assert_eq!(swap("first", "third"), case("-02", "second"));
    // The new value is there already, but it is not the expected one.
    assert_eq!(swap("first", "second"), case("-02", "second"));
}

#[test]
fn mismatch_with_the_new_value_in_place() {
    let mut w = HTWorker::new(NoVoHT::new());
    let _ = w.process(&request(OPC_INSERT, b"k", b"b"));
    let swap = ZPack { newval: b"b".to_vec(), ..request(OPC_CMPSWP, b"k", b"a") };
    let r = w.process(&swap).response().unwrap();
    assert_eq!((r.lease, r.val), (b"-02".to_vec(), b"b".to_vec()));
    assert_eq!(w.store().get("k").unwrap(), "b");
    assert_eq!(w.metrics().compare_swap_errors, 1);
}

#[test]
fn callback_of_a_client() {
    let (c, mut w) = (client("a 1\n"), HTWorker::new(NoVoHT::new()));
    let request = c.state_change_callback("key", "done", 250).unwrap().request;
    assert_eq!(request.lease, b"250".to_vec());
    let waiting = match w.process(&request) {
        Processed::Waiting(callback) => callback,
        Processed::Done(r) => panic!("answered at once: {:?}", r),
    };
    assert_eq!((waiting.watched.as_str(), waiting.expected.as_str(), waiting.lease_ms), ("key", "done", 250));
    assert!(w.poll(&waiting, 0).is_none());
    let _ = answered(&mut w, c.insert("key", "other"));
    assert!(w.poll(&waiting, 249).is_none());
    let _ = answered(&mut w, c.insert("key", "done"));
    let r = w.poll(&waiting, 249).unwrap();
    c.on_state_change_callback(250, &r).unwrap();
    // A value that is there counts even when the time is used up.
    assert_eq!(w.poll(&waiting, 9999).unwrap().lease, REC_SUCC.as_bytes().to_vec());
    let _ = answered(&mut w, c.remove("key"));
    let r = w.poll(&waiting, 250).unwrap();
    assert_eq!(r.lease, REC_SCCBPOLLTRY.as_bytes().to_vec());
    assert_eq!((r.opcode, r.key), (OPC_STCHGCB.as_bytes().to_vec(), b"key".to_vec()));
    let m = w.metrics();
    assert_eq!((m.state_change_callback_count, m.state_change_callback_errors, m.total_errors), (1, 1, 1));
    let expired = c.on_state_change_callback(250, &with_lease(b"-04")).unwrap_err();
    assert_eq!(expired.to_string(), "state change callback lease expired after 250ms");
}

#[test]
fn callback_without_a_readable_lease() {
    let mut w = HTWorker::new(NoVoHT::new());
    let lease_of = |w: &mut HTWorker, lease: &[u8]| -> PendingCallback {
        let request = ZPack {
            opcode: OPC_STCHGCB.as_bytes().to_vec(),
            key: b"k".to_vec(),
            lease: lease.to_vec(),
            ..ZPack::default()
        };
        match w.process(&request) {
            Processed::Waiting(callback) => callback,
            Processed::Done(r) => panic!("answered at once: {:?}", r),
        }
    };
    assert_eq!(lease_of(&mut w, b"").lease_ms, 100);
    assert_eq!(lease_of(&mut w, b"soon").lease_ms, 100);
    assert_eq!(lease_of(&mut w, b"0").lease_ms, 0);
    assert_eq!(lease_of(&mut w, b"18446744073709551615").lease_ms, u64::MAX);
}

#[test]
fn all_clients_route_a_key_to_the_same_node() {
    let nodes = "a 1\nb 2\nc 3\n";
    let (x, y) = (client(nodes), client(nodes));
    for key in ["a", "ab", "hello", "日本"] {
        let p = x.insert(key, "v").unwrap();
        let q = y.lookup(key).unwrap();
        assert_eq!(p.host, q.host);
    }
    assert_eq!(x.lookup("a").unwrap().host.address(), "b:2");
}

#[test]
fn operations_that_cannot_be_sent() {
    let c = client("");
    assert!(matches!(c.lookup("k"), Err(ZhtError::NoDestinationNode(k)) if k == "k"));
    let mut c = client("a 1\n");
    assert!(matches!(c.remove(""), Err(ZhtError::EmptyKey)));
    c.teardown();
    assert_eq!(
        c.append("", "v").unwrap_err().to_string(),
        "ZHTClient not initialized — call init() first",
    );
    c.init();
    assert!(c.append("k", "v").is_ok());
    assert_eq!(c.config().node_count(), 1);
}

#[test]
fn statuses_of_responses() {
    assert_eq!(parse_status(&with_lease(b"000value")), "000");
    assert_eq!(parse_status(&with_lease(b"-9")), "-9");
    assert_eq!(parse_status(&with_lease(b"")), "");
    assert_eq!(parse_status(&with_lease(&[0xff, b'0', b'0', b'x'])), "\u{fffd}00");
}

#[test]
fn what_other_statuses_mean() {
    let c = client("a 1\n");
    let words = |r: ZhtResult<()>| r.unwrap_err().to_string();
    assert!(matches!(c.on_insert(&with_lease(b"-01")), Err(ZhtError::EmptyKey)));
    assert_eq!(words(c.on_insert(&with_lease(b"-03"))), "Server error on INSERT");
    assert_eq!(words(c.on_insert(&with_lease(b"-98"))), "INSERT failed: -98");
    assert_eq!(words(c.on_append(&with_lease(b"-03"))), "Server error on APPEND");
    assert_eq!(words(c.on_append(&with_lease(b"x"))), "APPEND failed: x");
    assert_eq!(words(c.on_remove("k", &with_lease(b"-98"))), "REMOVE failed: -98");
    assert_eq!(words(c.on_state_change_callback(1, &with_lease(b"-01"))), "SCCB failed: -01");
    assert_eq!(c.on_lookup("k", &with_lease(b"-98")).unwrap_err().to_string(), "LOOKUP failed: -98");
    assert_eq!(c.on_lookup("k", &ZPack { val: b"v".to_vec(), ..with_lease(b"000") }).unwrap(), "v");
    assert_eq!(c.on_lookup("k", &with_lease(b"000\xff!")).unwrap(), "\u{fffd}!");
    assert!(matches!(c.on_compare_swap("k", "b", &with_lease(b"-92")), Err(ZhtError::KeyNotFound(_))));
    assert_eq!(c.on_compare_swap("k", "b", &ZPack { val: b"v".to_vec(), ..with_lease(b"-98") }).unwrap(), "v");
}

// ── The worker ──────────────────────────────────────────────────────────

fn request(code: &str, key: &[u8], val: &[u8]) -> ZPack {
    ZPack { opcode: code.as_bytes().to_vec(), key: key.to_vec(), val: val.to_vec(), ..ZPack::default() }
}

#[test]
fn codes_name_operations() {
    assert_eq!(Operation::from_code("001"), Operation::Lookup);
    assert_eq!(Operation::from_code("002"), Operation::Remove);
    assert_eq!(Operation::from_code("003"), Operation::Insert);
    assert_eq!(Operation::from_code("004"), Operation::Append);
    assert_eq!(Operation::from_code("005"), Operation::CompareSwap);
    assert_eq!(Operation::from_code("006"), Operation::StateChangeCallback);
    assert_eq!(Operation::from_code("007"), Operation::Unrecognized);
    assert_eq!(Operation::from_code("01"), Operation::Unrecognized);
}

#[test]
fn keys_and_values_that_are_not_text() {
    let mut w = HTWorker::new(NoVoHT::new());
    let r = w.process(&request(OPC_INSERT, &[0xff, b'k'], &[b'v', 0xc3])).response().unwrap();
    // The response echoes the key as it came.
    assert_eq!(r.key, vec![0xff, b'k']);
    assert_eq!(w.store().get("\u{fffd}k").unwrap(), "v\u{fffd}");
    let r = w.process(&request(OPC_LOOKUP, &[0xfe, b'k'], b"")).response().unwrap();
    assert_eq!(r.val, "v\u{fffd}".as_bytes().to_vec());
}

#[test]
fn refusals_change_nothing_and_are_told_apart() {
    let mut w = HTWorker::new(NoVoHT::new());
    let _ = w.process(&request(OPC_INSERT, b"k", b"v"));
    let mut lease = |z: ZPack| w.process(&z).response().unwrap().lease;
    assert_eq!(lease(request(OPC_INSERT, b"", b"v")), REC_EMPTYKEY.as_bytes().to_vec());
    assert_eq!(lease(request(OPC_LOOKUP, b"x", b"")), REC_NONEXISTKEY.as_bytes().to_vec());
    assert_eq!(lease(request(OPC_REMOVE, b"x", b"")), REC_NONEXISTKEY.as_bytes().to_vec());
    assert_eq!(lease(request("999", b"x", b"")), REC_UOPC.as_bytes().to_vec());
    let swap = ZPack { newval: b"n".to_vec(), ..request(OPC_CMPSWP, b"k", b"w") };
    assert_eq!(lease(swap), REC_CLTFAIL.as_bytes().to_vec());
    assert_eq!(w.store().entries(), vec![("k".to_string(), "v".to_string())]);
    let m = w.metrics();
    assert_eq!((m.total_operations, m.total_errors), (6, 5));
    assert_eq!((m.insert_count, m.insert_errors), (1, 1));
    assert_eq!((m.unrecognized_count, m.compare_swap_errors), (1, 1));
}

#[test]
fn other_keys_stay_as_they_are() {
    let mut w = HTWorker::new(NoVoHT::new());
    let _ = w.process(&request(OPC_INSERT, b"other", b"same"));
    for z in [
        request(OPC_INSERT, b"k", b"v"),
        request(OPC_APPEND, b"k", b"w"),
        ZPack { newval: b"n".to_vec(), ..request(OPC_CMPSWP, b"k", b"v:w") },
        request(OPC_REMOVE, b"k", b""),
    ] {
        assert_eq!(w.process(&z).response().unwrap().lease, REC_SUCC.as_bytes().to_vec());
        assert_eq!(w.store().get("other").unwrap(), "same");
    }
    assert_eq!(w.store().len(), 1);
}

#[test]
fn worker_hands_on_the_journal() {
    let mut w = HTWorker::new(NoVoHT::with_persistence("db", &vec![]));
    let _ = w.process(&request(OPC_INSERT, b"k", b"v"));
    let _ = w.process(&request(OPC_LOOKUP, b"k", b""));
    let _ = w.process(&request(OPC_REMOVE, b"k", b""));
    assert_eq!(w.take_journal(), "k\tv\t\n~k\t\n");
    assert_eq!(w.take_journal(), "");
}
