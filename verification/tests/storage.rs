use kvstore::errors::UnknownAction;
use kvstore::storage::encode_record;
use kvstore::storage::get_from_log;
use kvstore::storage::KVAction;
use kvstore::storage::KVStorage;

/// Appends the record for `(key, value)` to an in-memory log, as `set` does
/// to the log file.
fn set_in(log: &mut Vec<u8>, key: &str, value: &str) {
    let mut record = encode_record(key.as_bytes(), value.as_bytes());
    log.append(&mut record);
}

/// Looks `key` up in an in-memory log, as `get` does in the log file, and
/// gives the value back as text.
fn get_in(log: &[u8], key: &str) -> Option<String> {
    get_from_log(log, key.as_bytes()).map(|v| String::from_utf8(v).unwrap())
}

#[test]
fn test_kvaction_parsed_from_str() {
    assert_eq!(KVAction::from_str("get"), Ok(KVAction::GET));
    assert_eq!(KVAction::from_str("set"), Ok(KVAction::SET));
}

#[test]
fn test_kvaction_not_parsed_from_random_str() {
    assert_eq!(KVAction::from_str("GGEG"), Err(UnknownAction("GGEG")));
}

#[test]
fn test_storage_creation() {
    let s = KVStorage::new("TEST.txt");
    assert_eq!(
        s,
        KVStorage {
            filename: "TEST.txt"
        }
    );
}

#[test]
fn test_set_wrote_to_file() {
    let mut log: Vec<u8> = Vec::new();
    set_in(&mut log, "hey", "nice");

    assert_eq!(log, b"hey nice\n".to_vec());
}

#[test]
fn test_get_returns_value() {
    let mut log: Vec<u8> = Vec::new();
    set_in(&mut log, "hey", "nice");

    assert_eq!(get_in(&log, "hey"), Some(String::from("nice")));
}

#[test]
fn test_get_returns_none_on_empty_storage() {
    let log: Vec<u8> = Vec::new();
    assert_eq!(get_in(&log, "some"), None);
}

#[test]
fn test_get_return_last_set_value() {
    let mut log: Vec<u8> = Vec::new();
    set_in(&mut log, "hey", "nice");
    set_in(&mut log, "hey", "test");

    assert_eq!(get_in(&log, "hey"), Some(String::from("test")));
}

#[test]
fn test_get_returns_none_on_unset_key() {
    let mut log: Vec<u8> = Vec::new();
    set_in(&mut log, "hey", "nice");

    assert_eq!(get_in(&log, "gsd"), None);
}

#[test]
fn test_get_on_long_string() {
    let mut log: Vec<u8> = Vec::new();
    set_in(&mut log, "hey", "{'hey': ['look', 'here'], 'what': 'sup'}");

    assert_eq!(
        get_in(&log, "hey"),
        Some(String::from("{'hey': ['look', 'here'], 'what': 'sup'}")),
    );
}

#[test]
fn test_set_get_scenario() {
    let mut log: Vec<u8> = Vec::new();
    set_in(&mut log, "hey", "nice");
    assert_eq!(get_in(&log, "hey"), Some(String::from("nice")));
    set_in(&mut log, "hey", "test");
    assert_eq!(get_in(&log, "hey"), Some(String::from("test")));
    assert_eq!(get_in(&log, "missing"), None);
    set_in(&mut log, "hey", "{'a': ['b','c']}");
    assert_eq!(get_in(&log, "hey"), Some(String::from("{'a': ['b','c']}")));
}

#[test]
fn test_set_independent_keys() {
    let mut log: Vec<u8> = Vec::new();
    set_in(&mut log, "one", "first");
    set_in(&mut log, "two", "second");

    assert_eq!(get_in(&log, "one"), Some(String::from("first")));
    assert_eq!(get_in(&log, "two"), Some(String::from("second")));
}

#[test]
fn test_set_appends_one_record_per_call() {
    let mut log: Vec<u8> = Vec::new();
    set_in(&mut log, "a", "1");
    set_in(&mut log, "a", "2");
    set_in(&mut log, "b", "3");

    assert_eq!(log, b"a 1\na 2\nb 3\n".to_vec());
}

#[test]
fn test_get_skips_malformed_line() {
    let log = b"noseparator\nhey nice\n".to_vec();
    assert_eq!(get_in(&log, "noseparator"), None);
    assert_eq!(get_in(&log, "hey"), Some(String::from("nice")));
}

#[test]
fn test_get_key_is_whole_first_field() {
    let log = b"hey nice\n".to_vec();
    assert_eq!(get_in(&log, "he"), None);
    assert_eq!(get_in(&log, "hey "), None);
}

#[test]
fn test_get_value_keeps_embedded_spaces() {
    let log = b"hey a b c\n".to_vec();
    assert_eq!(get_in(&log, "hey"), Some(String::from("a b c")));
}

#[test]
fn test_get_on_unterminated_last_line() {
    let log = b"hey nice".to_vec();
    assert_eq!(get_in(&log, "hey"), Some(String::from("nice")));
}

#[test]
fn test_encode_record_layout() {
    let record = encode_record(b"key", b"some value");
    assert_eq!(record, b"key some value\n".to_vec());
}
