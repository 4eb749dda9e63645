use zht::hash_util::HashUtil;

#[test]
fn test_gen_hash_empty() {
    let hash = HashUtil::gen_hash(b"");
    assert_eq!(hash, 0);
}

#[test]
fn test_gen_hash_deterministic() {
    let h1 = HashUtil::gen_hash(b"hello");
    let h2 = HashUtil::gen_hash(b"hello");
    assert_eq!(h1, h2);
}

#[test]
fn test_gen_hash_different_keys() {
    let h1 = HashUtil::gen_hash(b"key1");
    let h2 = HashUtil::gen_hash(b"key2");
    assert_ne!(h1, h2);
}

#[test]
fn test_gen_hash_str() {
    let h1 = HashUtil::gen_hash_str("test_key");
    let h2 = HashUtil::gen_hash(b"test_key");
    assert_eq!(h1, h2);
}

#[test]
fn test_gen_hash_null_terminator() {
    // Hash should stop at null byte (matching C string behavior)
    let h1 = HashUtil::gen_hash(b"hello\0world");
    let h2 = HashUtil::gen_hash(b"hello");
    assert_eq!(h1, h2);
}

#[test]
fn test_gen_base() {
    assert_eq!(HashUtil::gen_base("localhost", 50000), "localhost:50000");
}

#[test]
fn test_random_string_length() {
    let s = HashUtil::random_string(20);
    assert_eq!(s.len(), 20);
    assert!(s.chars().all(|c| c.is_alphanumeric()));
}

#[test]
fn test_hash_distribution() {
    // Verify hash produces reasonable distribution across 100 keys
    let hashes: std::collections::HashSet<u64> = (0..100)
        .map(|i| HashUtil::gen_hash_str(&format!("key_{}", i)))
        .collect();
    // All 100 hashes should be unique
    assert_eq!(hashes.len(), 100);
}

#[test]
fn test_routing_consistency() {
    // Simulate the zero-hop routing: hash(key) % num_nodes
    let num_nodes = 8usize;
    let keys = vec!["alpha", "beta", "gamma", "delta", "epsilon"];

    // Route each key — should always produce same node index
    for key in &keys {
        let hash = HashUtil::gen_hash_str(key);
        let idx = (hash as usize) % num_nodes;
        // Verify consistency: same key always routes to same node
        let idx2 = (HashUtil::gen_hash_str(key) as usize) % num_nodes;
        assert_eq!(idx, idx2, "Key '{}' routes inconsistently", key);
    }
}
