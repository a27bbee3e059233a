use registry::codec::Codec;
use registry::configuration::{parse_str, Configuration};
use registry::duration::Duration;
use registry::error::{ConfigError, Expected};
use registry::http::Http;
use registry::storage::StorageMedia;
use registry::tree::Node;

fn one_second() -> Duration {
    Duration { secs: 1, nanos: 0 }
}

fn assert_all_defaults_but_version(config: &Configuration, version: &str) {
    assert_eq!(config.version, version);
    assert_eq!(config.http.drain_timeout, one_second());
    assert_eq!(config.redis.dial_timeout, one_second());
    assert_eq!(config.redis.read_timeout, one_second());
    assert_eq!(config.redis.write_timeout, one_second());
    assert_eq!(config.redis.pool.idle_timeout, one_second());
    assert_eq!(config.health.storage_driver.interval, one_second());
    match &config.storage.media {
        StorageMedia::Filesystem(options) => assert!(options.entries.is_empty()),
        other => panic!("expected the file system, got {:?}", other),
    }
    assert!(config.storage.maintenance.is_none());
    assert!(config.storage.cache.is_none());
    assert!(config.storage.delete.is_none());
    assert!(config.storage.redirect.is_none());
    assert!(config.auth.entries.is_empty());
    assert!(config.middleware.entries.is_empty());
    assert!(config.log.fields.entries.is_empty());
    assert!(config.log.hooks.is_empty());
    assert!(config.http.headers.entries.is_empty());
    assert!(config.http.tls.client_cas.is_empty());
    assert!(config.http.tls.lets_encrypt.hosts.is_empty());
    assert!(config.notifications.endpoints.is_empty());
    assert!(config.health.file_checkers.is_empty());
    assert!(config.health.http_checkers.is_empty());
    assert!(config.health.tcp_checkers.is_empty());
    assert!(config.validation.manifests.urls.allow.is_empty());
    assert!(config.validation.manifests.urls.deny.is_empty());
    assert!(config.policy.repository.classes.is_empty());
    assert_eq!(config.log.level, "");
    assert_eq!(config.http.addr, "");
    assert!(!config.http.relative_urls);
    assert_eq!(config.redis.db, 0);
    assert_eq!(config.redis.pool.max_idle, 0);
}

#[test]
fn empty_document_gives_every_default() {
    let config = parse_str("").unwrap();
    assert_all_defaults_but_version(&config, "");
    assert_eq!(config, Configuration::default_value());
}

#[test]
fn document_with_only_a_version_gives_every_other_default() {
    let config = parse_str("version: \"0.1\"").unwrap();
    assert_all_defaults_but_version(&config, "0.1");
}

#[test]
fn explicit_null_document_gives_every_default() {
    assert_eq!(parse_str("~").unwrap(), Configuration::default_value());
    assert_eq!(Configuration::from_node(&Node::Null).unwrap(), Configuration::default_value());
}

#[test]
fn present_section_with_absent_field_gives_the_field_its_default() {
    let config = parse_str("http:\n  addr: :5000\nredis:\n  pool:\n    maxidle: 16\n").unwrap();
    assert_eq!(config.http.addr, ":5000");
    assert_eq!(config.http.drain_timeout, one_second());
    assert_eq!(config.http.debug.prometheus.path, "");
    assert_eq!(config.redis.pool.max_idle, 16);
    assert_eq!(config.redis.pool.max_active, 0);
    assert_eq!(config.redis.pool.idle_timeout, one_second());
}

#[test]
fn null_counts_as_absent_for_sections_collections_and_strings() {
    let config = parse_str(
        "log: ~\nhttp:\n  addr: ~\n  headers: ~\n  tls:\n    clientcas: ~\nauth: ~\nstorage:\n  cache: ~\n  filesystem: ~\n",
    )
    .unwrap();
    assert_eq!(config, Configuration::default_value());
}

#[test]
fn null_is_kept_apart_from_absent_for_booleans_integers_and_durations() {
    assert_eq!(
        parse_str("http:\n  relativeurls: ~\n"),
        Err(ConfigError::TypeMismatch(Expected::Boolean))
    );
    assert_eq!(
        bool::from_node(&Node::Null),
        Err(ConfigError::TypeMismatch(Expected::Boolean))
    );
    assert_eq!(parse_str("redis:\n  db: ~\n"), Err(ConfigError::TypeMismatch(Expected::Integer)));
    assert_eq!(u32::from_node(&Node::Null), Err(ConfigError::TypeMismatch(Expected::Integer)));
    assert_eq!(i32::from_node(&Node::Null), Err(ConfigError::TypeMismatch(Expected::Integer)));
    assert_eq!(
        parse_str("http:\n  draintimeout: ~\n"),
        Err(ConfigError::InvalidDuration("".to_string()))
    );
}

#[test]
fn absent_duration_field_is_one_second() {
    let http = Http::from_node(&Node::Dict(vec![])).unwrap();
    assert_eq!(http.drain_timeout, Duration { secs: 1, nanos: 0 });
    assert_eq!(Duration::default_value(), Duration { secs: 1, nanos: 0 });
}

#[test]
fn unknown_keys_of_a_section_are_passed_over() {
    let config = parse_str("http:\n  nosuchkey: 1\n  addr: a\nnosuchsection:\n  - 1\n").unwrap();
    assert_eq!(config.http.addr, "a");
    let mut expected = Configuration::default_value();
    expected.http.addr = "a".to_string();
    assert_eq!(config, expected);
}

#[test]
fn first_of_two_entries_with_one_key_counts() {
    let section = Node::Dict(vec![
        (Node::Text("addr".to_string()), Node::Text("first".to_string())),
        (Node::Text("addr".to_string()), Node::Text("second".to_string())),
    ]);
    assert_eq!(Http::from_node(&section).unwrap().addr, "first");
}
