use zht::error::ZhtError;
use zht::novoht::NoVoHT;
use zht::text::text_lines;

fn open_store(file: &str) -> NoVoHT {
    NoVoHT::with_persistence("test.db", &text_lines(file))
}

#[test]
fn test_basic_put_and_get() {
    let mut ht = NoVoHT::new();
    ht.put("name", "Alice").unwrap();
    assert_eq!(ht.get("name").unwrap(), "Alice");
}

#[test]
fn test_overwrite_existing_key() {
    let mut ht = NoVoHT::new();
    ht.put("key", "value1").unwrap();
    ht.put("key", "value2").unwrap();
    assert_eq!(ht.get("key").unwrap(), "value2");
}

#[test]
fn test_get_nonexistent_key_returns_error() {
    let ht = NoVoHT::new();
    let result = ht.get("missing");
    assert!(result.is_err());
    match result.unwrap_err() {
        ZhtError::KeyNotFound(k) => assert_eq!(k, "missing"),
        other => panic!("unexpected error: {:?}", other),
    }
}

#[test]
fn test_put_empty_key_returns_error() {
    let mut ht = NoVoHT::new();
    let result = ht.put("", "value");
    assert!(result.is_err());
    match result.unwrap_err() {
        ZhtError::EmptyKey => {}
        other => panic!("expected EmptyKey, got: {:?}", other),
    }
}

#[test]
fn test_remove_existing_key() {
    let mut ht = NoVoHT::new();
    ht.put("key", "value").unwrap();
    assert!(ht.contains("key"));
    ht.remove("key").unwrap();
    assert!(!ht.contains("key"));
}

#[test]
fn test_remove_nonexistent_key_returns_error() {
    let mut ht = NoVoHT::new();
    let result = ht.remove("missing");
    assert!(result.is_err());
    match result.unwrap_err() {
        ZhtError::KeyNotFound(k) => assert_eq!(k, "missing"),
        other => panic!("unexpected error: {:?}", other),
    }
}

#[test]
fn test_append_to_existing_key() {
    let mut ht = NoVoHT::new();
    ht.put("list", "a").unwrap();
    ht.append("list", "b").unwrap();
    assert_eq!(ht.get("list").unwrap(), "a:b");
}

#[test]
fn test_append_multiple_times() {
    let mut ht = NoVoHT::new();
    ht.put("list", "a").unwrap();
    ht.append("list", "b").unwrap();
    ht.append("list", "c").unwrap();
    assert_eq!(ht.get("list").unwrap(), "a:b:c");
}

#[test]
fn test_append_to_nonexistent_key() {
    let mut ht = NoVoHT::new();
    ht.append("newkey", "value").unwrap();
    assert_eq!(ht.get("newkey").unwrap(), "value");
}

#[test]
fn test_append_empty_key_returns_error() {
    let mut ht = NoVoHT::new();
    let result = ht.append("", "value");
    assert!(result.is_err());
    match result.unwrap_err() {
        ZhtError::EmptyKey => {}
        other => panic!("expected EmptyKey, got: {:?}", other),
    }
}

#[test]
fn test_compare_swap_success() {
    let mut ht = NoVoHT::new();
    ht.put("key", "old").unwrap();
    let result = ht.compare_swap("key", "old", "new").unwrap();
    assert_eq!(result, "new");
    assert_eq!(ht.get("key").unwrap(), "new");
}

#[test]
fn test_compare_swap_failure() {
    let mut ht = NoVoHT::new();
    ht.put("key", "actual").unwrap();
    let result = ht.compare_swap("key", "wrong", "new").unwrap();
    assert_eq!(result, "actual");
    assert_eq!(ht.get("key").unwrap(), "actual");
}

#[test]
fn test_compare_swap_nonexistent_key() {
    let mut ht = NoVoHT::new();
    let result = ht.compare_swap("newkey", "expected", "inserted").unwrap();
    assert_eq!(result, "inserted");
    assert_eq!(ht.get("newkey").unwrap(), "inserted");
}

#[test]
fn lib_test_contains_key() {
    let mut ht = NoVoHT::new();
    assert!(!ht.contains("key"));
    ht.put("key", "value").unwrap();
    assert!(ht.contains("key"));
    ht.remove("key").unwrap();
    assert!(!ht.contains("key"));
}

#[test]
fn test_len_and_is_empty() {
    let mut ht = NoVoHT::new();
    assert_eq!(ht.len(), 0);
    assert!(ht.is_empty());

    ht.put("a", "1").unwrap();
    assert_eq!(ht.len(), 1);
    assert!(!ht.is_empty());

    ht.put("b", "2").unwrap();
    assert_eq!(ht.len(), 2);

    ht.put("a", "3").unwrap();
    assert_eq!(ht.len(), 2);

    ht.remove("a").unwrap();
    assert_eq!(ht.len(), 1);

    ht.remove("b").unwrap();
    assert_eq!(ht.len(), 0);
    assert!(ht.is_empty());
}

#[test]
fn test_keys() {
    let mut ht = NoVoHT::new();
    ht.put("a", "1").unwrap();
    ht.put("b", "2").unwrap();
    ht.put("c", "3").unwrap();

    let mut keys = ht.keys();
    keys.sort();
    assert_eq!(keys, vec!["a", "b", "c"]);
}

#[test]
fn test_entries() {
    let mut ht = NoVoHT::new();
    ht.put("x", "10").unwrap();
    ht.put("y", "20").unwrap();

    let mut entries = ht.entries();
    entries.sort_by(|a, b| a.0.cmp(&b.0));
    assert_eq!(
        entries,
        vec![
            ("x".to_string(), "10".to_string()),
            ("y".to_string(), "20".to_string())
        ]
    );
}

#[test]
fn test_keys_empty() {
    let ht = NoVoHT::new();
    assert!(ht.keys().is_empty());
    assert!(ht.entries().is_empty());
}

#[test]
fn test_default() {
    let ht = NoVoHT::default();
    assert!(ht.is_empty());
}

#[test]
fn test_persistence_put_flush_recreate() {
    let mut file = String::new();

    {
        let mut ht = open_store(&file);
        ht.put("name", "Alice").unwrap();
        ht.put("age", "30").unwrap();
        file = ht.flush().unwrap();
    }

    {
        let mut ht = open_store(&file);
        assert_eq!(ht.get("name").unwrap(), "Alice");
        assert_eq!(ht.get("age").unwrap(), "30");
        assert_eq!(ht.len(), 2);
    }
}

#[test]
fn test_persistence_remove_persists() {
    let mut file = String::new();

    {
        let mut ht = open_store(&file);
        ht.put("a", "1").unwrap();
        ht.put("b", "2").unwrap();
        ht.remove("a").unwrap();
        file = ht.flush().unwrap();
    }

    {
        let mut ht = open_store(&file);
        assert_eq!(ht.get("b").unwrap(), "2");
        assert!(ht.get("a").is_err());
        assert_eq!(ht.len(), 1);
    }
}

#[test]
fn test_persistence_append_persists() {
    let mut file = String::new();

    {
        let mut ht = open_store(&file);
        ht.put("list", "a").unwrap();
        ht.append("list", "b").unwrap();
        ht.append("list", "c").unwrap();
        file = ht.flush().unwrap();
    }

    {
        let mut ht = open_store(&file);
        assert_eq!(ht.get("list").unwrap(), "a:b:c");
    }
}

#[test]
fn test_persistence_overwrite_persists() {
    let mut file = String::new();

    {
        let mut ht = open_store(&file);
        ht.put("key", "v1").unwrap();
        ht.put("key", "v2").unwrap();
        file = ht.flush().unwrap();
    }

    {
        let mut ht = open_store(&file);
        assert_eq!(ht.get("key").unwrap(), "v2");
        assert_eq!(ht.len(), 1);
    }
}

#[test]
fn test_persistence_empty_file() {
    let mut file = String::new();

    {
        let mut ht = open_store(&file);
        assert!(ht.is_empty());
        file = ht.flush().unwrap();
    }

    {
        let mut ht = open_store(&file);
        assert!(ht.is_empty());
    }
}

#[test]
fn test_persistence_compare_swap_persists() {
    let mut file = String::new();

    {
        let mut ht = open_store(&file);
        ht.put("counter", "0").unwrap();
        ht.compare_swap("counter", "0", "1").unwrap();
        file = ht.flush().unwrap();
    }

    {
        let mut ht = open_store(&file);
        assert_eq!(ht.get("counter").unwrap(), "1");
    }
}

#[test]
fn test_persistence_large_dataset() {
    let mut file = String::new();

    {
        let mut ht = open_store(&file);
        for i in 0..100 {
            ht.put(&format!("key_{i}"), &format!("value_{i}")).unwrap();
        }
        file = ht.flush().unwrap();
        assert_eq!(ht.len(), 100);
    }

    {
        let mut ht = open_store(&file);
        assert_eq!(ht.len(), 100);
        for i in 0..100 {
            assert_eq!(ht.get(&format!("key_{i}")).unwrap(), format!("value_{i}"));
        }
    }
}

#[test]
fn test_in_memory_no_persistence() {
    let mut ht = NoVoHT::new();
    ht.put("key", "value").unwrap();
    assert!(ht.flush().is_none());
    assert_eq!(ht.get("key").unwrap(), "value");
    assert!(!ht.is_persistent());
}

#[test]
fn test_in_memory_remove_and_reinsert() {
    let mut ht = NoVoHT::new();
    ht.put("key", "v1").unwrap();
    ht.remove("key").unwrap();
    assert!(!ht.contains("key"));
    ht.put("key", "v2").unwrap();
    assert_eq!(ht.get("key").unwrap(), "v2");
}

#[test]
fn test_keys_with_special_characters() {
    let mut ht = NoVoHT::new();
    ht.put("key with spaces", "value").unwrap();
    ht.put("key\twith\ttabs", "value2").unwrap();
    ht.put("key\nwith\nnewlines", "value3").unwrap();

    assert_eq!(ht.get("key with spaces").unwrap(), "value");
    assert_eq!(ht.get("key\twith\ttabs").unwrap(), "value2");
    assert_eq!(ht.get("key\nwith\nnewlines").unwrap(), "value3");
    assert_eq!(ht.len(), 3);
}

#[test]
fn test_empty_value() {
    let mut ht = NoVoHT::new();
    ht.put("key", "").unwrap();
    assert_eq!(ht.get("key").unwrap(), "");
    assert!(ht.contains("key"));
}

#[test]
fn test_multiple_operations_same_key() {
    let mut ht = NoVoHT::new();

    ht.put("k", "v1").unwrap();
    assert_eq!(ht.get("k").unwrap(), "v1");

    ht.append("k", "v2").unwrap();
    assert_eq!(ht.get("k").unwrap(), "v1:v2");

    ht.put("k", "v3").unwrap();
    assert_eq!(ht.get("k").unwrap(), "v3");

    ht.append("k", "v4").unwrap();
    assert_eq!(ht.get("k").unwrap(), "v3:v4");

    ht.remove("k").unwrap();
    assert!(ht.get("k").is_err());

    ht.put("k", "v5").unwrap();
    assert_eq!(ht.get("k").unwrap(), "v5");
}
