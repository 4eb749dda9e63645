use zht::constants::{
    OPC_APPEND, OPC_CMPSWP, OPC_INSERT, OPC_LOOKUP, OPC_REMOVE, REC_CLTFAIL, REC_EMPTYKEY,
    REC_NONEXISTKEY, REC_SUCC, REC_UOPC,
};
use zht::novoht::NoVoHT;
use zht::worker::HTWorker;
use zht::zpack::ZPack;

fn make_test_worker() -> HTWorker {
    HTWorker::new(NoVoHT::new())
}

fn make_zpack(opcode: &str, key: &str, val: &str) -> ZPack {
    let mut z = ZPack::default();
    z.opcode = opcode.as_bytes().to_vec();
    z.key = key.as_bytes().to_vec();
    if !val.is_empty() {
        z.val = val.as_bytes().to_vec();
    }
    z
}

#[test]
fn worker_test_worker_insert_and_lookup() {
    let mut worker = make_test_worker();

    let req = make_zpack(OPC_INSERT, "mykey", "myvalue");
    let resp = worker.process(&req).response().unwrap();
    assert_eq!(resp.lease, REC_SUCC.as_bytes().to_vec());

    let req = make_zpack(OPC_LOOKUP, "mykey", "");
    let resp = worker.process(&req).response().unwrap();
    let lease_status = String::from_utf8_lossy(&resp.lease);
    assert!(lease_status.starts_with(REC_SUCC));
    assert!(lease_status.contains("myvalue"));
    assert_eq!(resp.val, b"myvalue".to_vec());
    assert!(!resp.valnull);
}

#[test]
fn worker_test_worker_lookup_nonexistent() {
    let mut worker = make_test_worker();
    let req = make_zpack(OPC_LOOKUP, "nonexistent", "");
    let resp = worker.process(&req).response().unwrap();
    assert_eq!(resp.lease, REC_NONEXISTKEY.as_bytes().to_vec());
    assert!(resp.valnull);
}

#[test]
fn worker_test_worker_remove() {
    let mut worker = make_test_worker();
    let req = make_zpack(OPC_INSERT, "rmkey", "rmval");
    worker.process(&req).response().unwrap();

    let req = make_zpack(OPC_REMOVE, "rmkey", "");
    let resp = worker.process(&req).response().unwrap();
    assert_eq!(resp.lease, REC_SUCC.as_bytes().to_vec());

    let req = make_zpack(OPC_LOOKUP, "rmkey", "");
    let resp = worker.process(&req).response().unwrap();
    assert_eq!(resp.lease, REC_NONEXISTKEY.as_bytes().to_vec());
}

#[test]
fn worker_test_worker_remove_nonexistent() {
    let mut worker = make_test_worker();
    let req = make_zpack(OPC_REMOVE, "nope", "");
    let resp = worker.process(&req).response().unwrap();
    assert_eq!(resp.lease, REC_NONEXISTKEY.as_bytes().to_vec());
}

#[test]
fn worker_test_worker_append() {
    let mut worker = make_test_worker();
    let req = make_zpack(OPC_INSERT, "appendkey", "hello");
    worker.process(&req).response().unwrap();

    let req = make_zpack(OPC_APPEND, "appendkey", " world");
    let resp = worker.process(&req).response().unwrap();
    assert_eq!(resp.lease, REC_SUCC.as_bytes().to_vec());

    let req = make_zpack(OPC_LOOKUP, "appendkey", "");
    let resp = worker.process(&req).response().unwrap();
    assert_eq!(resp.val, b"hello: world".to_vec());
}

#[test]
fn worker_test_worker_compare_swap_success() {
    let mut worker = make_test_worker();
    let req = make_zpack(OPC_INSERT, "caskey", "old");
    worker.process(&req).response().unwrap();

    let mut req = make_zpack(OPC_CMPSWP, "caskey", "old");
    req.newval = b"new".to_vec();
    let resp = worker.process(&req).response().unwrap();
    assert_eq!(resp.lease, REC_SUCC.as_bytes().to_vec());

    let req = make_zpack(OPC_LOOKUP, "caskey", "");
    let resp = worker.process(&req).response().unwrap();
    assert_eq!(resp.val, b"new".to_vec());
}

#[test]
fn worker_test_worker_compare_swap_mismatch() {
    let mut worker = make_test_worker();
    let req = make_zpack(OPC_INSERT, "caskey", "actual");
    worker.process(&req).response().unwrap();

    let mut req = make_zpack(OPC_CMPSWP, "caskey", "wrong");
    req.newval = b"new".to_vec();
    let resp = worker.process(&req).response().unwrap();
    assert_eq!(resp.lease, REC_CLTFAIL.as_bytes().to_vec());
    assert_eq!(resp.val, b"actual".to_vec());
    assert!(!resp.valnull);

    let req = make_zpack(OPC_LOOKUP, "caskey", "");
    let resp = worker.process(&req).response().unwrap();
    assert_eq!(resp.val, b"actual".to_vec());
}

#[test]
fn worker_test_worker_unrecognized_opcode() {
    let mut worker = make_test_worker();
    let req = make_zpack("999", "key", "val");
    let resp = worker.process(&req).response().unwrap();
    assert_eq!(resp.lease, REC_UOPC.as_bytes().to_vec());
}

#[test]
fn worker_test_worker_empty_key() {
    let mut worker = make_test_worker();
    let req = make_zpack(OPC_INSERT, "", "val");
    let resp = worker.process(&req).response().unwrap();
    assert_eq!(resp.lease, REC_EMPTYKEY.as_bytes().to_vec());
}
