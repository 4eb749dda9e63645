use std::collections::HashSet;
use zht::id_helper::IdHelper;

#[test]
fn test_gen_id_returns_u64() {
    let id = IdHelper::gen_id();
    // Should produce a valid u64
    let _ = id;
}

#[test]
fn test_gen_ids_are_mostly_unique() {
    let mut ids = HashSet::new();
    for _ in 0..1000 {
        ids.insert(IdHelper::gen_id());
    }
    // With 1000 random 64-bit IDs, should have very few collisions
    // if any (birthday paradox: ~50% collision at 2^32)
    assert!(ids.len() > 990, "Too many ID collisions");
}

#[test]
fn test_gen_id_string_length() {
    let id_str = IdHelper::gen_id_string(16);
    assert_eq!(id_str.len(), 16);
}

#[test]
fn test_gen_id_string_is_hex() {
    let id_str = IdHelper::gen_id_string(20);
    assert!(id_str.chars().all(|c| c.is_ascii_hexdigit()));
}
