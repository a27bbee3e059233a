use registry::codec::Codec;
use registry::configuration::{parse_str, serialize, Configuration};
use registry::error::{ConfigError, Expected};
use registry::parameter::Parameter;
use registry::storage::StorageMedia;
use registry::table::Table;
use registry::tree::Node;

#[test]
fn malformed_text_is_a_syntax_error_with_a_position() {
    match parse_str("log: [unclosed\n") {
        Err(ConfigError::Syntax(message)) => {
            assert!(message.contains("line"), "message was: {}", message);
        }
        other => panic!("expected a syntax error, got {:?}", other),
    }
    assert!(matches!(parse_str("a: b: c"), Err(ConfigError::Syntax(_))));
    assert!(matches!(parse_str("a: 1\na: 2\n"), Err(ConfigError::Syntax(_))));
}

#[test]
fn section_given_a_scalar_is_a_type_mismatch() {
    assert_eq!(parse_str("http: 5\n"), Err(ConfigError::TypeMismatch(Expected::Dict)));
    assert_eq!(parse_str("just a scalar"), Err(ConfigError::TypeMismatch(Expected::Dict)));
    assert_eq!(parse_str("- 1\n- 2\n"), Err(ConfigError::TypeMismatch(Expected::Dict)));
    assert_eq!(
        parse_str("log:\n  accesslog: off\n"),
        Err(ConfigError::TypeMismatch(Expected::Dict))
    );
}

#[test]
fn each_kind_of_field_refuses_what_it_cannot_hold() {
    assert_eq!(
        parse_str("http:\n  relativeurls: maybe\n"),
        Err(ConfigError::TypeMismatch(Expected::Boolean))
    );
    assert_eq!(
        parse_str("http:\n  relativeurls: \"true\"\n"),
        Err(ConfigError::TypeMismatch(Expected::Boolean))
    );
    assert_eq!(parse_str("redis:\n  db: -1\n"), Err(ConfigError::TypeMismatch(Expected::Integer)));
    assert_eq!(
        parse_str("redis:\n  db: 4294967296\n"),
        Err(ConfigError::TypeMismatch(Expected::Integer))
    );
    assert_eq!(
        parse_str("redis:\n  db: \"1\"\n"),
        Err(ConfigError::TypeMismatch(Expected::Integer))
    );
    assert_eq!(parse_str("redis:\n  db: 1.5\n"), Err(ConfigError::TypeMismatch(Expected::Integer)));
    assert_eq!(
        parse_str("health:\n  http:\n    - statuscode: 2147483648\n"),
        Err(ConfigError::TypeMismatch(Expected::Integer))
    );
    assert_eq!(
        parse_str("http:\n  addr:\n    - a\n"),
        Err(ConfigError::TypeMismatch(Expected::Text))
    );
    assert_eq!(
        parse_str("log:\n  hooks: nope\n"),
        Err(ConfigError::TypeMismatch(Expected::List))
    );
    assert_eq!(
        parse_str("log:\n  fields: nope\n"),
        Err(ConfigError::TypeMismatch(Expected::Dict))
    );
    assert_eq!(
        parse_str("auth:\n  token:\n    realm: [a]\n"),
        Err(ConfigError::TypeMismatch(Expected::Scalar))
    );
    assert_eq!(
        parse_str("log:\n  fields:\n    [a]: b\n"),
        Err(ConfigError::TypeMismatch(Expected::Key))
    );
}

#[test]
fn integers_in_range_are_taken() {
    let config = parse_str(
        "redis:\n  db: 4294967295\nhealth:\n  http:\n    - statuscode: -2147483648\n    - statuscode: 2147483647\n",
    )
    .unwrap();
    assert_eq!(config.redis.db, u32::MAX);
    assert_eq!(config.health.http_checkers[0].status_code, i32::MIN);
    assert_eq!(config.health.http_checkers[1].status_code, i32::MAX);
}

#[test]
fn first_field_that_fails_decides_the_error() {
    // `addr` is read before `draintimeout`, wherever the two stand.
    assert_eq!(
        parse_str("http:\n  draintimeout: never\n  addr: [a]\n"),
        Err(ConfigError::TypeMismatch(Expected::Text))
    );
    // `log` is read before `http`.
    assert_eq!(
        parse_str("http:\n  draintimeout: never\nlog: 5\n"),
        Err(ConfigError::TypeMismatch(Expected::Dict))
    );
}

#[test]
fn tagged_value_fits_no_field() {
    assert_eq!(
        parse_str("http:\n  addr: !custom value\n"),
        Err(ConfigError::TypeMismatch(Expected::Text))
    );
    assert_eq!(parse_str("http: !custom\n  addr: a\n"), Err(ConfigError::TypeMismatch(Expected::Dict)));
}

#[test]
fn configuration_that_cannot_be_written_is_refused() {
    let mut config = Configuration::default_value();
    config.storage.media = StorageMedia::S3(Table {
        entries: vec![("ratio".to_string(), Parameter::Double("not a number".to_string()))],
    });
    assert_eq!(serialize(&config), Err(ConfigError::TypeMismatch(Expected::Writable)));
    config.storage.media = StorageMedia::S3(Table {
        entries: vec![("ratio".to_string(), Parameter::Double("1.50".to_string()))],
    });
    assert_eq!(serialize(&config), Err(ConfigError::TypeMismatch(Expected::Writable)));
    config.storage.media = StorageMedia::S3(Table {
        entries: vec![("ratio".to_string(), Parameter::Double("1.5".to_string()))],
    });
    assert!(serialize(&config).is_ok());
    config.storage.media = StorageMedia::S3(Table {
        entries: vec![
            ("b".to_string(), Parameter::Integer(1)),
            ("a".to_string(), Parameter::Integer(2)),
        ],
    });
    assert_eq!(serialize(&config), Err(ConfigError::TypeMismatch(Expected::Writable)));
}

#[test]
fn every_error_has_its_message() {
    assert_eq!(ConfigError::Syntax("at line 1".to_string()).message(), "syntax error: at line 1");
    assert_eq!(
        ConfigError::InvalidDuration("abc".to_string()).message(),
        "invalid duration: abc"
    );
    assert_eq!(
        ConfigError::TypeMismatch(Expected::Dict).message(),
        "type mismatch: expected a mapping"
    );
    assert_eq!(
        ConfigError::TypeMismatch(Expected::Text).message(),
        "type mismatch: expected a string"
    );
    assert_eq!(
        ConfigError::TypeMismatch(Expected::Boolean).message(),
        "type mismatch: expected a boolean"
    );
    assert_eq!(
        ConfigError::TypeMismatch(Expected::Integer).message(),
        "type mismatch: expected an integer in range"
    );
    assert_eq!(
        ConfigError::TypeMismatch(Expected::Scalar).message(),
        "type mismatch: expected a scalar"
    );
    assert_eq!(
        ConfigError::TypeMismatch(Expected::List).message(),
        "type mismatch: expected a sequence"
    );
    assert_eq!(
        ConfigError::TypeMismatch(Expected::Key).message(),
        "type mismatch: expected a key that reads as a string"
    );
    assert_eq!(
        ConfigError::TypeMismatch(Expected::Writable).message(),
        "type mismatch: expected a document that can be written"
    );
    assert_eq!(ConfigError::UnresolvableVariant.message(), "no variant can be resolved");
    assert_eq!(ConfigError::Emit("full".to_string()).message(), "cannot write: full");
}

#[test]
fn string_fields_take_scalars_by_their_text() {
    let config = parse_str("version: 0.1\nhttp:\n  addr: 5000\n  host: true\n  prefix: -3\n").unwrap();
    assert_eq!(config.version, "0.1");
    assert_eq!(config.http.addr, "5000");
    assert_eq!(config.http.host, "true");
    assert_eq!(config.http.prefix, "-3");
    assert_eq!(
        String::from_node(&Node::Int(i64::MIN)),
        Ok("-9223372036854775808".to_string())
    );
    assert_eq!(String::from_node(&Node::Bool(false)), Ok("false".to_string()));
}
