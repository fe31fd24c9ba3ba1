use kvstore::args::Args;
use kvstore::errors::ArgsParseError;
use kvstore::errors::UnknownAction;
use kvstore::storage::KVAction;

#[test]
fn test_parse_args_object_created() {
    let strs = vec![String::from("get"), String::from("key")];
    let args = Args::parse_args(strs);
    assert_eq!(
        args,
        Ok(Args {
            action: KVAction::GET,
            key: "key".to_string(),
            value: None,
        })
    );

    let strs = vec![
        String::from("set"),
        String::from("key"),
        String::from("value"),
    ];
    let args = Args::parse_args(strs);
    assert_eq!(
        args,
        Ok(Args {
            action: KVAction::SET,
            key: "key".to_string(),
            value: Some(String::from("value")),
        })
    );
}

#[test]
fn test_parse_args_invalid_action() {
    let strs = vec![String::from("asdgsa")];
    let args = Args::parse_args(strs);
    assert_eq!(
        args,
        Err(ArgsParseError(String::from("Unknown action: asdgsa")))
    );
}

#[test]
fn test_parse_args_missing_key() {
    let strs = vec![String::from("set")];
    let args = Args::parse_args(strs);
    assert_eq!(args, Err(ArgsParseError(String::from("Missing key"))));
}

#[test]
fn test_parse_args_missing_value() {
    let strs = vec![String::from("set"), String::from("key")];
    let args = Args::parse_args(strs);
    assert_eq!(args, Err(ArgsParseError(String::from("Missing value"))));
}

#[test]
fn test_get_missing_key() {
    let strs = vec![String::from("get")];
    let args = Args::parse_args(strs);
    assert_eq!(args, Err(ArgsParseError(String::from("Missing key"))));
}

#[test]
fn test_get_too_many_args() {
    let strs = vec![
        String::from("get"),
        String::from("key"),
        String::from("val"),
    ];
    let args = Args::parse_args(strs);
    assert_eq!(
        args,
        Err(ArgsParseError(String::from("Too many arguments to get")))
    );
}

#[test]
fn test_parse_args_no_tokens() {
    let args = Args::parse_args(Vec::new());
    assert_eq!(args, Err(ArgsParseError(String::from("Missing action"))));
}

#[test]
fn test_error_messages() {
    assert_eq!(
        UnknownAction("asdgsa").message(),
        String::from("Unknown action: asdgsa")
    );
    assert_eq!(
        ArgsParseError(String::from("Missing key")).message(),
        String::from("Error parsing args: Missing key")
    );
}
