use zht::client::ZHTClient;
use zht::config::FileContents;

fn make_client() -> ZHTClient {
    ZHTClient::new(
        "zht.conf",
        FileContents::Text("PROTOCOL TCP\nPORT 50000\n".to_string()),
        "neighbor.conf",
        FileContents::Text("localhost 50000\n".to_string()),
    )
    .unwrap()
}

#[test]
fn test_client_creation() {
    let client = ZHTClient::new(
        "zht.conf",
        FileContents::Text("PROTOCOL TCP\nPORT 50000\n".to_string()),
        "neighbor.conf",
        FileContents::Text("localhost 50000\n".to_string()),
    );
    assert!(client.is_ok());
}

#[test]
fn test_client_init_and_teardown() {
    let mut client = make_client();
    client.init();
    assert!(client.is_initialized());
    client.teardown();
    assert!(!client.is_initialized());
}

#[test]
fn test_insert_empty_key_fails() {
    let mut client = make_client();
    client.init();

    let result = client.insert("", "value");
    assert!(result.is_err());
}

#[test]
fn test_operation_before_init_fails() {
    let client = make_client();

    let result = client.insert("key", "value");
    assert!(result.is_err());
    assert!(result.unwrap_err().to_string().contains("not initialized"));
}
