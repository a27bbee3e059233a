use registry::codec::Codec;
use registry::configuration::{parse_str, serialize, Configuration};
use registry::duration::Duration;
use registry::storage::StorageMedia;
use registry::table::Table;
use registry::tree::Node;

const FULL: &str = "
version: 0.1
log:
  accesslog:
    disabled: true
  level: debug
  formatter: json
  fields:
    service: registry
    environment: staging
  hooks:
    - type: mail
      disabled: true
      levels: [panic, error]
      mailoptions:
        smtp:
          addr: mail.example.com:25
          username: mailuser
          password: secret
          insecure: true
        from: sender@example.com
        to: [a@example.com, b@example.com]
storage:
  inmemory: ~
  delete:
    enabled: true
  cache:
    blobdescriptor: redis
  maintenance:
    uploadpurging:
      enabled: true
      age: 168h
    readonly:
      enabled: false
  redirect:
    disable: false
auth:
  token:
    realm: token-realm
    service: token-service
  htpasswd:
    realm: basic-realm
    path: /path/to/htpasswd
middleware:
  registry:
    - name: first
      options:
        foo: bar
    - name: second
      disable: true
      options: {}
  storage:
    - name: cloudfront
      options:
        duration: 3000s
reporting:
  bugsnag:
    apikey: key
    releasestage: production
    endpoint: https://bugsnag.example.com
  newrelic:
    licensekey: license
    name: registry
    verbose: true
http:
  addr: localhost:5000
  net: tcp
  host: https://registry.example.com
  prefix: /my/nested/registry/
  secret: asecretforlocaldevelopment
  relativeurls: true
  draintimeout: 60s
  tls:
    certificate: /path/to/x509/public
    key: /path/to/x509/private
    clientcas:
      - /path/to/ca.pem
      - /path/to/another/ca.pem
    minimumtls: tls1.2
    letsencrypt:
      cachefile: /path/to/cache-file
      email: emailused@letsencrypt.com
      hosts: [myregistryaddress.org]
  headers:
    X-Content-Type-Options: [nosniff]
    Cache-Control: [no-cache, no-store]
  debug:
    addr: localhost:5001
    prometheus:
      enabled: true
      path: /metrics
  http2:
    disabled: true
notifications:
  events:
    includereferences: true
  endpoints:
    - name: alistener
      disabled: false
      url: https://my.listener.com/event
      headers:
        Authorization: [Bearer token]
      timeout: 1s
      threshold: 10
      backoff: 1s 500ms
      ignoredmediatypes:
        - application/octet-stream
      ignore:
        mediatypes:
          - application/octet-stream
        actions:
          - pull
redis:
  addr: localhost:6379
  password: asecret
  db: 7
  dialtimeout: 10ms
  readtimeout: 10ms
  writetimeout: 10ms
  pool:
    maxidle: 16
    maxactive: 64
    idletimeout: 300s
health:
  storagedriver:
    enabled: true
    interval: 10s
    threshold: 3
  file:
    - file: /path/to/checked/file
      interval: 10s
      threshold: 1
  http:
    - url: https://health.example.com
      statuscode: 200
      timeout: 3s
      interval: 10s
      threshold: 3
      headers:
        Accept: [text/plain]
  tcp:
    - add: redis-server.domain.com:6379
      timeout: 3s
      interval: 10s
      threshold: 3
proxy:
  remoteurl: https://registry-1.docker.io
  username: proxyuser
  password: proxypassword
compatibility:
  schema1:
    signingkeyfile: /etc/registry/key.json
    enabled: true
validation:
  enabled: true
  signingkeyfile: true
  manifests:
    urls:
      allow:
        - ^https?://([^/]+\\.)*example\\.com/
      deny:
        - ^https?://www\\.example\\.com/
policy:
  repository:
    classes: [image, plugin]
";

fn assert_canonical(node: &Node, path: &str) {
    match node {
        Node::List(items) => {
            for (i, item) in items.iter().enumerate() {
                assert_canonical(item, &format!("{}[{}]", path, i));
            }
        }
        Node::Dict(entries) => {
            let mut before: Option<&str> = None;
            for (key, value) in entries {
                let key = match key {
                    Node::Text(key) => key.as_str(),
                    other => panic!("{}: key is no string: {:?}", path, other),
                };
                if let Some(before) = before {
                    assert!(before < key, "{}: {} does not sort before {}", path, before, key);
                }
                before = Some(key);
                assert_canonical(value, &format!("{}.{}", path, key));
            }
        }
        Node::Tagged(..) => panic!("{}: tagged", path),
        _ => {}
    }
}

fn assert_no_separator_in_keys(node: &Node, path: &str) {
    match node {
        Node::List(items) => {
            for item in items {
                assert_no_separator_in_keys(item, path);
            }
        }
        Node::Dict(entries) => {
            for (key, value) in entries {
                if let Node::Text(key) = key {
                    assert!(!key.contains('_'), "{}: key {} holds the separator", path, key);
                    assert_no_separator_in_keys(value, &format!("{}.{}", path, key));
                }
            }
        }
        _ => {}
    }
}

#[test]
fn full_document_sets_every_section() {
    let config = parse_str(FULL).unwrap();
    assert_eq!(config.version, "0.1");
    assert!(config.log.access_log.disabled);
    assert_eq!(config.log.formatter, "json");
    assert_eq!(config.log.hooks.len(), 1);
    assert_eq!(config.log.hooks[0].kind, "mail");
    assert_eq!(config.log.hooks[0].levels, vec!["panic".to_string(), "error".to_string()]);
    assert_eq!(config.log.hooks[0].mail_options.smtp.addr, "mail.example.com:25");
    assert!(config.log.hooks[0].mail_options.smtp.insecure);
    assert_eq!(config.log.hooks[0].mail_options.to.len(), 2);
    assert_eq!(config.storage.media, StorageMedia::InMemory);
    assert!(config.storage.maintenance.is_some());
    assert!(config.storage.cache.is_some());
    assert!(config.storage.delete.is_some());
    assert!(config.storage.redirect.is_some());
    let places: Vec<&str> = config.middleware.entries.iter().map(|e| e.0.as_str()).collect();
    assert_eq!(places, vec!["registry", "storage"]);
    assert_eq!(config.middleware.entries[0].1.len(), 2);
    assert_eq!(config.middleware.entries[0].1[0].name, "first");
    assert!(config.middleware.entries[0].1[1].disable);
    let ways: Vec<&str> = config.auth.entries.iter().map(|e| e.0.as_str()).collect();
    assert_eq!(ways, vec!["htpasswd", "token"]);
    assert_eq!(config.reporting.bugsnag.release_stage, "production");
    assert!(config.reporting.new_relic.verbose);
    assert_eq!(config.http.drain_timeout, Duration { secs: 60, nanos: 0 });
    assert_eq!(config.http.tls.client_cas.len(), 2);
    assert_eq!(config.http.tls.minimum_tls, "tls1.2");
    assert_eq!(config.http.tls.lets_encrypt.hosts, vec!["myregistryaddress.org".to_string()]);
    let headers: Vec<&str> = config.http.headers.entries.iter().map(|e| e.0.as_str()).collect();
    assert_eq!(headers, vec!["Cache-Control", "X-Content-Type-Options"]);
    assert!(config.http.debug.prometheus.enabled);
    assert!(config.http.http2.disabled);
    assert!(config.notifications.event_config.include_references);
    assert_eq!(config.notifications.endpoints[0].threshold, 10);
    assert_eq!(
        config.notifications.endpoints[0].backoff,
        Duration { secs: 1, nanos: 500_000_000 }
    );
    assert_eq!(config.redis.db, 7);
    assert_eq!(config.redis.dial_timeout, Duration { secs: 0, nanos: 10_000_000 });
    assert_eq!(config.redis.pool.max_active, 64);
    assert_eq!(config.redis.pool.idle_timeout, Duration { secs: 300, nanos: 0 });
    assert!(config.health.storage_driver.enabled);
    assert_eq!(config.health.file_checkers[0].file, "/path/to/checked/file");
    assert_eq!(config.health.http_checkers[0].status_code, 200);
    assert_eq!(config.health.tcp_checkers[0].add, "redis-server.domain.com:6379");
    assert_eq!(config.proxy.remote_url, "https://registry-1.docker.io");
    assert_eq!(config.compatibility.schema1.trust_key, "/etc/registry/key.json");
    assert!(config.compatibility.schema1.enabled);
    assert!(config.validation.enabled);
    assert!(config.validation.disabled);
    assert_eq!(config.validation.manifests.urls.allow.len(), 1);
    assert_eq!(config.policy.repository.classes, vec!["image".to_string(), "plugin".to_string()]);
}

#[test]
fn full_document_survives_a_cycle() {
    let first = parse_str(FULL).unwrap();
    let text = serialize(&first).unwrap();
    let second = parse_str(&text).unwrap();
    assert_eq!(first, second);
    assert_eq!(serialize(&second).unwrap(), text);
    assert_eq!(Configuration::from_node(&first.to_node()).unwrap(), first);
}

#[test]
fn whatever_is_written_is_in_canonical_order() {
    for document in ["", "version: 1", FULL] {
        let config = parse_str(document).unwrap();
        assert_canonical(&config.to_node(), "");
    }
}

#[test]
fn no_field_name_holds_the_separator() {
    // Every map of the default configuration is empty, so every key that is
    // written for it names a field.
    assert_no_separator_in_keys(&Configuration::default_value().to_node(), "");
    let mut with_lists = parse_str(
        "log:\n  hooks:\n    - type: mail\nmiddleware:\n  registry:\n    - name: m\nnotifications:\n  endpoints:\n    - name: e\nhealth:\n  file:\n    - file: f\n  http:\n    - url: u\n  tcp:\n    - add: a\nstorage:\n  maintenance: {}\n",
    )
    .unwrap();
    with_lists.storage.media = StorageMedia::InMemory;
    assert_no_separator_in_keys(&with_lists.to_node(), "");
}

#[test]
fn defaults_of_the_two_types_with_defaults_of_their_own() {
    assert_eq!(Duration::default(), Duration { secs: 1, nanos: 0 });
    assert_eq!(StorageMedia::default(), StorageMedia::Filesystem(Table { entries: vec![] }));
}
