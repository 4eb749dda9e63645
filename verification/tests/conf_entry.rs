use zht::conf_entry::ConfEntry;

#[test]
fn test_from_line_simple() {
    let entry = ConfEntry::from_line("PROTOCOL TCP").unwrap();
    assert_eq!(entry.name, "PROTOCOL");
    assert_eq!(entry.value, "TCP");
}

#[test]
fn test_from_line_with_comment() {
    assert!(ConfEntry::from_line("# this is a comment").is_none());
}

#[test]
fn test_from_line_empty() {
    assert!(ConfEntry::from_line("").is_none());
    assert!(ConfEntry::from_line("   ").is_none());
}

#[test]
fn test_from_line_name_only() {
    let entry = ConfEntry::from_line("SINGLETON").unwrap();
    assert_eq!(entry.name, "SINGLETON");
    assert_eq!(entry.value, "");
}

#[test]
fn test_from_line_with_tabs() {
    let entry = ConfEntry::from_line("PORT\t\t50000").unwrap();
    assert_eq!(entry.name, "PORT");
    assert_eq!(entry.value, "50000");
}

#[test]
fn test_parse_value() {
    let entry = ConfEntry::from_line("PORT 50000").unwrap();
    assert_eq!(entry.parse_value::<u16>(), Some(50000));
    assert_eq!(entry.parse_value::<i32>(), Some(50000));
}

#[test]
fn test_value_or() {
    let entry = ConfEntry::from_line("PORT 50000").unwrap();
    assert_eq!(entry.value_or(0u16), 50000);

    let empty = ConfEntry::from_line("COMMENTED_OUT").unwrap();
    assert_eq!(empty.value_or(9999u16), 9999);
}

#[test]
fn test_display() {
    let entry = ConfEntry::new("PROTOCOL", "TCP");
    assert_eq!(entry.to_string(), "PROTOCOL TCP");

    let entry2 = ConfEntry::new("SINGLE", "");
    assert_eq!(entry2.to_string(), "SINGLE");
}

#[test]
fn test_to_string() {
    let entry = ConfEntry::new("MSG_MAXSIZE", "1000000");
    assert_eq!(entry.to_string(), "MSG_MAXSIZE 1000000");
}
