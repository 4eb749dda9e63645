use zht::error::ZhtError;
use zht::novoht::NoVoHT;
use zht::text::text_lines;

/// A table and its file, which is written after each change.
struct Disk {
    table: NoVoHT,
    file: String,
}

impl Disk {
    fn open(file: &str) -> Disk {
        let mut table = NoVoHT::with_persistence("db", &text_lines(file));
        let file = table.flush().unwrap();
        Disk { table, file }
    }

    fn save(&mut self) {
        self.file.push_str(&self.table.take_journal());
    }

    fn reopened(&self) -> NoVoHT {
        NoVoHT::with_persistence("db", &text_lines(&self.file))
    }
}

fn sorted(table: &NoVoHT) -> Vec<(String, String)> {
    let mut entries = table.entries();
    entries.sort();
    entries
}

#[test]
fn test_persistence_file_format() {
    let mut disk = Disk::open("");
    disk.table.put("hello", "world").unwrap();
    disk.save();
    assert!(disk.file.contains("hello\tworld\t"));
    assert_eq!(disk.file, "hello\tworld\t\n");
    assert_eq!(disk.table.flush().unwrap(), "hello\tworld\t\n");
}

#[test]
fn journal_lines() {
    let mut disk = Disk::open("");
    disk.table.put("k", "v").unwrap();
    disk.table.append("k", "w").unwrap();
    disk.table.compare_swap("k", "nothing", "x").unwrap();
    disk.table.compare_swap("k", "v:w", "x").unwrap();
    disk.table.remove("k").unwrap();
    assert!(disk.table.remove("k").is_err());
    assert_eq!(disk.table.take_journal(), "k\tv\t\nk\tv:w\t\nk\tv:w\t\nk\tx\t\n~k\t\n");
    assert_eq!(disk.table.take_journal(), "");
}

#[test]
fn reopened_table_is_the_same() {
    let mut disk = Disk::open("");
    for (k, v) in [("a", "1"), ("b", " two"), ("日", "本"), ("sp ace", "x~y")] {
        disk.table.put(k, v).unwrap();
        disk.save();
        assert_eq!(sorted(&disk.reopened()), sorted(&disk.table));
    }
    disk.table.append("a", "2").unwrap();
    disk.table.remove("b").unwrap();
    disk.table.compare_swap("日", "本", "月").unwrap();
    disk.save();
    assert_eq!(sorted(&disk.reopened()), sorted(&disk.table));
    let rewritten = disk.table.flush().unwrap();
    assert!(rewritten.lines().all(|line| !line.starts_with('~')));
    assert_eq!(sorted(&Disk::open(&rewritten).table), sorted(&disk.table));
}

#[test]
fn texts_that_do_not_survive_the_file() {
    let reload = |k: &str, v: &str| {
        let mut disk = Disk::open("");
        disk.table.put(k, v).unwrap();
        disk.save();
        disk.reopened().get(k).ok()
    };
    assert_eq!(reload("k", ""), None);
    assert_eq!(reload("~k", "v"), None);
    assert_eq!(reload(" k", "v"), None);
    assert_eq!(reload("k", "v "), Some("v".to_string()));
    assert_eq!(reload("k", "a\tb"), Some("a:b".to_string()));
    assert_eq!(reload("k", "a\nb"), Some("a".to_string()));
}

#[test]
fn lines_of_a_file() {
    let lines = "a\t1\t\nb\t2\t3\t\t4\t\n\n  \nlonely\nc\t5\r\n~a\t\n~never\t\nd\t6";
    let table = NoVoHT::with_persistence("db", &text_lines(lines));
    assert_eq!(
        sorted(&table),
        vec![
            ("b".to_string(), "2:3:4".to_string()),
            ("c".to_string(), "5".to_string()),
            ("d".to_string(), "6".to_string()),
        ],
    );
    assert_eq!(table.db_path(), "db");
    assert!(table.is_persistent());
}

#[test]
fn memory_only_table_keeps_no_journal() {
    let mut table = NoVoHT::new();
    table.put("k", "v").unwrap();
    assert_eq!(table.take_journal(), "");
    assert_eq!(table.flush(), None);
    assert_eq!(table.db_path(), "");
}

#[test]
fn refused_operations_change_nothing() {
    let mut table = NoVoHT::new();
    table.put("k", "v").unwrap();
    assert!(matches!(table.put("", "x"), Err(ZhtError::EmptyKey)));
    assert!(matches!(table.append("", "x"), Err(ZhtError::EmptyKey)));
    assert!(matches!(table.remove("x"), Err(ZhtError::KeyNotFound(k)) if k == "x"));
    assert!(matches!(table.get("x"), Err(ZhtError::KeyNotFound(k)) if k == "x"));
    assert_eq!(sorted(&table), vec![("k".to_string(), "v".to_string())]);
    // A compare-and-swap takes an empty key.
    assert_eq!(table.compare_swap("", "a", "b").unwrap(), "b");
    assert!(table.contains(""));
}

#[test]
fn appended_values_stand_in_order() {
    let mut table = NoVoHT::new();
    table.append("k", "a").unwrap();
    table.append("k", "b").unwrap();
    table.append("k", "").unwrap();
    assert_eq!(table.get("k").unwrap(), "a:b:");
}

#[test]
fn file_follows_any_calls() {
    let mut disk = Disk::open("");
    for round in 0..40u32 {
        let key = format!("key{}", round % 7);
        let value = format!("value {}", round);
        match round % 5 {
            0 => disk.table.put(&key, &value).unwrap(),
            1 => disk.table.append(&key, &value).unwrap(),
            2 => {
                disk.table.compare_swap(&key, "other", &value).unwrap();
            }
            3 => {
                let _ = disk.table.remove(&key);
            }
            _ => {
                let _ = disk.table.put("", &value);
            }
        }
        disk.save();
        assert_eq!(sorted(&disk.reopened()), sorted(&disk.table));
        if round % 11 == 0 {
            disk.file = disk.table.flush().unwrap();
            assert_eq!(disk.file.lines().count(), disk.table.len());
            assert!(disk.file.lines().all(|line| !line.starts_with('~')));
            assert_eq!(sorted(&disk.reopened()), sorted(&disk.table));
        }
        if round % 13 == 0 {
            disk = Disk::open(&disk.file);
        }
    }
    assert!(!disk.table.is_empty());
}
