use registry::codec::Codec;
use registry::configuration::{parse_str, serialize};
use registry::error::{ConfigError, Expected};
use registry::parameter::{Parameter, Parameters};
use registry::storage::{select, Cache, Maintenance, Storage, StorageMedia};
use registry::table::Table;
use registry::tree::Node;
use registry::yaml::read_document;

fn text(s: &str) -> Node {
    Node::Text(s.to_string())
}

fn storage_of(document: &str) -> Storage {
    Storage::from_node(&read_document(document).unwrap()).unwrap()
}

#[test]
fn s3_key_selects_s3_with_its_options() {
    let storage = storage_of("s3:\n  bucket: my-bucket\n  region: us-east-1\n");
    assert_eq!(
        storage.media,
        StorageMedia::S3(Table {
            entries: vec![
                ("bucket".to_string(), Parameter::String("my-bucket".to_string())),
                ("region".to_string(), Parameter::String("us-east-1".to_string())),
            ]
        })
    );
}

#[test]
fn no_recognised_key_selects_the_file_system_without_options() {
    assert_eq!(storage_of("{}").media, StorageMedia::Filesystem(Table { entries: vec![] }));
    assert_eq!(
        storage_of("azure:\n  account: a\n").media,
        StorageMedia::Filesystem(Table { entries: vec![] })
    );
    assert_eq!(StorageMedia::default_value(), StorageMedia::Filesystem(Table { entries: vec![] }));
    assert_eq!(
        StorageMedia::from_node(&Node::Dict(vec![])),
        Ok(StorageMedia::Filesystem(Table { entries: vec![] }))
    );
}

#[test]
fn filesystem_key_selects_the_file_system_with_its_options() {
    assert_eq!(
        storage_of("filesystem:\n  rootdirectory: /var/lib/registry\n").media,
        StorageMedia::Filesystem(Table {
            entries: vec![(
                "rootdirectory".to_string(),
                Parameter::String("/var/lib/registry".to_string())
            )]
        })
    );
    assert_eq!(
        storage_of("filesystem: ~\n").media,
        StorageMedia::Filesystem(Table { entries: vec![] })
    );
}

#[test]
fn inmemory_key_selects_memory_whatever_its_value() {
    assert_eq!(storage_of("inmemory: ~\n").media, StorageMedia::InMemory);
    assert_eq!(storage_of("inmemory: {}\n").media, StorageMedia::InMemory);
    assert_eq!(storage_of("inmemory: [1, 2]\n").media, StorageMedia::InMemory);
}

#[test]
fn of_several_drivers_the_first_in_the_fixed_order_counts() {
    assert_eq!(
        storage_of("s3:\n  bucket: b\nfilesystem:\n  rootdirectory: /r\n").media,
        StorageMedia::Filesystem(Table {
            entries: vec![("rootdirectory".to_string(), Parameter::String("/r".to_string()))]
        })
    );
    assert_eq!(
        storage_of("inmemory: ~\ns3:\n  bucket: b\n").media,
        StorageMedia::S3(Table {
            entries: vec![("bucket".to_string(), Parameter::String("b".to_string()))]
        })
    );
    assert_eq!(
        storage_of("inmemory: ~\nfilesystem: {}\ns3: {}\n").media,
        StorageMedia::Filesystem(Table { entries: vec![] })
    );
}

#[test]
fn options_that_are_no_mapping_are_refused() {
    assert_eq!(
        Storage::from_node(&read_document("s3: 5\n").unwrap()),
        Err(ConfigError::TypeMismatch(Expected::Dict))
    );
    assert_eq!(
        select(&vec![(text("filesystem"), Node::List(vec![]))]),
        Err(ConfigError::TypeMismatch(Expected::Dict))
    );
    assert_eq!(
        Storage::from_node(&read_document("s3:\n  nested:\n    a: 1\n").unwrap()),
        Err(ConfigError::TypeMismatch(Expected::Scalar))
    );
}

#[test]
fn other_parts_are_read_whichever_driver_is_selected() {
    for driver in ["s3:\n  bucket: b\n", "inmemory: ~\n", "filesystem: {}\n", ""] {
        let document = format!(
            "{}cache:\n  blobdescriptor: redis\ndelete:\n  enabled: true\nmaintenance:\n  readonly:\n    enabled: false\n",
            driver
        );
        let storage = storage_of(&document);
        assert_eq!(
            storage.cache,
            Some(Cache(Parameters {
                parameters: Table {
                    entries: vec![(
                        "blobdescriptor".to_string(),
                        Parameter::String("redis".to_string())
                    )]
                }
            }))
        );
        assert_eq!(
            storage.delete.as_ref().unwrap().0.parameters.entries,
            vec![("enabled".to_string(), Parameter::Boolean(true))]
        );
        assert_eq!(
            storage.maintenance,
            Some(Maintenance {
                uploadpurging: Parameters { parameters: Table { entries: vec![] } },
                readonly: Parameters {
                    parameters: Table {
                        entries: vec![("enabled".to_string(), Parameter::Boolean(false))]
                    }
                },
            })
        );
        assert_eq!(storage.redirect, None);
    }
}

#[test]
fn storage_is_written_with_the_driver_among_its_keys() {
    let keys = |storage: &Storage| -> Vec<String> {
        match storage.to_node() {
            Node::Dict(entries) => entries
                .into_iter()
                .map(|e| match e.0 {
                    Node::Text(key) => key,
                    other => panic!("key is no string: {:?}", other),
                })
                .collect(),
            other => panic!("expected a mapping, got {:?}", other),
        }
    };
    assert_eq!(
        keys(&storage_of("s3: {}\n")),
        vec!["cache", "delete", "maintenance", "redirect", "s3"]
    );
    assert_eq!(
        keys(&storage_of("inmemory: ~\n")),
        vec!["cache", "delete", "inmemory", "maintenance", "redirect"]
    );
    assert_eq!(
        keys(&storage_of("{}")),
        vec!["cache", "delete", "filesystem", "maintenance", "redirect"]
    );
}

#[test]
fn every_driver_survives_a_cycle() {
    for document in [
        "storage:\n  s3:\n    bucket: b\n    port: 9000\n  cache:\n    blobdescriptor: inmemory\n",
        "storage:\n  inmemory: ~\n  redirect:\n    disable: true\n",
        "storage:\n  filesystem:\n    rootdirectory: /r\n  maintenance:\n    uploadpurging:\n      enabled: true\n      age: 168h\n",
        "storage: {}\n",
    ] {
        let first = parse_str(document).unwrap();
        let written = serialize(&first).unwrap();
        let second = parse_str(&written).unwrap();
        assert_eq!(first, second);
        assert_eq!(Storage::from_node(&first.storage.to_node()).unwrap(), first.storage);
    }
}

#[test]
fn storage_that_is_no_mapping_is_refused() {
    assert_eq!(parse_str("storage: 5\n"), Err(ConfigError::TypeMismatch(Expected::Dict)));
    assert_eq!(
        StorageMedia::from_node(&Node::Bool(true)),
        Err(ConfigError::TypeMismatch(Expected::Dict))
    );
}
