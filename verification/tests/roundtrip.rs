use registry::codec::Codec;
use registry::configuration::{parse_str, serialize, Configuration};
use registry::duration::Duration;
use registry::parameter::Parameter;
use registry::storage::StorageMedia;
use registry::tree::Node;
use registry::yaml::read_document;

// A version 0.1 document that sets something in most sections.
const CONFIG_YAML_V0_1: &'static str = "
version: 0.1
log:
  level: info
  fields:
    environment: test
storage:
  s3:
    region: us-east-1
    bucket: my-bucket
    rootdirectory: /registry
    encrypt: true
    secure: false
    accesskey: SAMPLEACCESSKEY
    secretkey: SUPERSECRET
    host: ~
    port: 42
auth:
  silly:
    realm: silly
    service: silly
notifications:
  endpoints:
    - name: endpoint-1
      url:  http://example.com
      headers:
        Authorization: [Bearer <example>]
      ignoredmediatypes:
        - application/octet-stream
      ignore:
        mediatypes:
           - application/octet-streamsto
        actions:
           - pull
reporting:
  bugsnag:
    apikey: BugsnagApiKey
http:
  clientcas:
    - /path/to/ca.pem
  headers:
    X-Content-Type-Options: [nosniff]
";

#[test]
fn test_parse_roundtrip() {
    let config = parse_str(&CONFIG_YAML_V0_1).unwrap();
    let content = serialize(&config).unwrap();
    let config_repeat = parse_str(&content).unwrap();
    assert_eq!(config, config_repeat);
    assert_eq!(content, serialize(&config_repeat).unwrap());
}

#[test]
fn sample_document_fills_the_fields_it_names() {
    let config = parse_str(CONFIG_YAML_V0_1).unwrap();
    assert_eq!(config.version, "0.1");
    assert_eq!(config.log.level, "info");
    assert_eq!(
        config.log.fields.entries,
        vec![("environment".to_string(), "test".to_string())]
    );
    match &config.storage.media {
        StorageMedia::S3(options) => {
            let keys: Vec<&str> = options.entries.iter().map(|e| e.0.as_str()).collect();
            assert_eq!(
                keys,
                vec![
                    "accesskey",
                    "bucket",
                    "encrypt",
                    "host",
                    "port",
                    "region",
                    "rootdirectory",
                    "secretkey",
                    "secure"
                ]
            );
            assert_eq!(options.entries[2].1, Parameter::Boolean(true));
            assert_eq!(options.entries[3].1, Parameter::Null);
            assert_eq!(options.entries[4].1, Parameter::Integer(42));
            assert_eq!(options.entries[8].1, Parameter::Boolean(false));
        }
        other => panic!("expected the s3 driver, got {:?}", other),
    }
    assert_eq!(config.auth.entries.len(), 1);
    assert_eq!(config.auth.entries[0].0, "silly");
    assert_eq!(
        config.auth.entries[0].1.parameters.entries,
        vec![
            ("realm".to_string(), Parameter::String("silly".to_string())),
            ("service".to_string(), Parameter::String("silly".to_string())),
        ]
    );
    let endpoint = &config.notifications.endpoints[0];
    assert_eq!(endpoint.name, "endpoint-1");
    assert_eq!(endpoint.url, "http://example.com");
    assert_eq!(
        endpoint.headers.entries,
        vec![("Authorization".to_string(), vec!["Bearer <example>".to_string()])]
    );
    assert_eq!(endpoint.ignore_media_type, vec!["application/octet-stream".to_string()]);
    assert_eq!(endpoint.ignore.media_types, vec!["application/octet-streamsto".to_string()]);
    assert_eq!(endpoint.ignore.actions, vec!["pull".to_string()]);
    assert_eq!(endpoint.timeout, Duration { secs: 1, nanos: 0 });
    assert_eq!(config.reporting.bugsnag.api_key, "BugsnagApiKey");
    assert_eq!(
        config.http.headers.entries,
        vec![("X-Content-Type-Options".to_string(), vec!["nosniff".to_string()])]
    );
    // `clientcas` is no key of the http section itself: it is passed over.
    assert!(config.http.tls.client_cas.is_empty());
}

#[test]
fn written_text_is_stable_after_one_pass() {
    let first = parse_str(
        "version: 2\nhttp:\n  draintimeout: 1h30m\n  addr: :5000\nredis:\n  db: 3\n  pool:\n    idletimeout: 250ms\n",
    )
    .unwrap();
    assert_eq!(first.http.drain_timeout, Duration { secs: 5400, nanos: 0 });
    assert_eq!(first.redis.pool.idle_timeout, Duration { secs: 0, nanos: 250_000_000 });
    let text = serialize(&first).unwrap();
    let second = parse_str(&text).unwrap();
    assert_eq!(first, second);
    assert_eq!(serialize(&second).unwrap(), text);
    assert!(text.contains("draintimeout: 5400s 0ns"));
    assert!(text.contains("idletimeout: 0s 250000000ns"));
}

#[test]
fn node_round_trip_of_a_whole_configuration() {
    let config = parse_str(CONFIG_YAML_V0_1).unwrap();
    let node = config.to_node();
    let again = Configuration::from_node(&node).unwrap();
    assert_eq!(config, again);
    assert_eq!(again.to_node(), node);
}

#[test]
fn written_keys_ascend_at_the_top_level() {
    let config = parse_str("").unwrap();
    let keys: Vec<String> = match config.to_node() {
        Node::Dict(entries) => entries
            .into_iter()
            .map(|e| match e.0 {
                Node::Text(key) => key,
                other => panic!("key is no string: {:?}", other),
            })
            .collect(),
        other => panic!("expected a mapping, got {:?}", other),
    };
    let mut sorted = keys.clone();
    sorted.sort();
    assert_eq!(keys, sorted);
    assert_eq!(keys.len(), 14);
    assert!(keys.iter().all(|key| !key.contains('_')));
}

#[test]
fn written_text_reads_back_as_the_tree_that_was_written() {
    let config = parse_str(CONFIG_YAML_V0_1).unwrap();
    let text = serialize(&config).unwrap();
    assert_eq!(read_document(&text).unwrap(), config.to_node());
}
