//! Health checks.

use crate::codec::{decode_field, entry, find_from, lemma_field_valid, read_field, Codec, Lenient};
use crate::duration::Duration;
use crate::error::{ConfigError, Expected, Fault};
use crate::http::Header;
use crate::table::Table;
use crate::text::{key_before, lemma_ascii_before};
use crate::tree::{
    lemma_ascend_by_neighbours, lemma_dict_tree, orderly, text_keys_ascend, tree_pairs, Node, Tree,
};
use vstd::prelude::*;

verus! {

/// A check that a file does not exist.
#[derive(Debug, PartialEq)]
pub struct FileChecker {
    /// How often the check runs.
    pub interval: Duration,
    /// The file looked for.
    pub file: String,
    /// Failures after which the check reports.
    pub threshold: u32,
}

/// `FileChecker` as a mathematical value.
pub struct FileCheckerModel {
    pub interval: Duration,
    pub file: Seq<char>,
    pub threshold: u32,
}

impl Codec for FileChecker {
    type Model = FileCheckerModel;

    open spec fn model(&self) -> FileCheckerModel {
        FileCheckerModel {
            interval: self.interval.model(),
            file: self.file.model(),
            threshold: self.threshold.model(),
        }
    }

    open spec fn valid(m: FileCheckerModel) -> bool {
        &&& Duration::valid(m.interval)
        &&& String::valid(m.file)
        &&& u32::valid(m.threshold)
    }

    open spec fn default_model() -> FileCheckerModel {
        FileCheckerModel {
            interval: Duration::default_model(),
            file: String::default_model(),
            threshold: u32::default_model(),
        }
    }

    /// An explicit null reads as the default. A mapping is read field by
    /// field: a field whose key is missing takes its default, keys that
    /// name no field are passed over, and the first field in the order below
    /// that cannot be read decides the error. Anything else is no section.
    open spec fn decode(tree: Tree) -> Result<FileCheckerModel, Fault> {
        match tree {
            Tree::Null => Ok(Self::default_model()),
            Tree::Dict(entries) => {
                let interval = decode_field::<Duration>(entries, "interval"@);
                let file = decode_field::<String>(entries, "file"@);
                let threshold = decode_field::<u32>(entries, "threshold"@);
                if interval is Err {
                    Err(interval->Err_0)
                } else if file is Err {
                    Err(file->Err_0)
                } else if threshold is Err {
                    Err(threshold->Err_0)
                } else {
                    Ok(
                        FileCheckerModel {
                            interval: interval->Ok_0,
                            file: file->Ok_0,
                            threshold: threshold->Ok_0,
                        },
                    )
                }
            },
            _ => Err(Fault::TypeMismatch(Expected::Dict)),
        }
    }

    /// A mapping with one entry for every field, in ascending key order.
    open spec fn encode(m: FileCheckerModel) -> Tree {
        Tree::Dict(
            seq![
                (Tree::Text("file"@), String::encode(m.file)),
                (Tree::Text("interval"@), Duration::encode(m.interval)),
                (Tree::Text("threshold"@), u32::encode(m.threshold)),
            ],
        )
    }

    proof fn lemma_default_valid() {
        Duration::lemma_default_valid();
        String::lemma_default_valid();
        u32::lemma_default_valid();
    }

    proof fn lemma_decode_valid(tree: Tree) {
        if let Tree::Dict(entries) = tree {
            lemma_field_valid::<Duration>(entries, "interval"@);
            lemma_field_valid::<String>(entries, "file"@);
            lemma_field_valid::<u32>(entries, "threshold"@);
        } else {
            Self::lemma_default_valid();
        }
    }

    proof fn lemma_round_trip(m: FileCheckerModel) {
        let entries = Self::encode(m)->Dict_0;
        assert(decode_field::<String>(entries, "file"@) == Ok::<Seq<char>, Fault>(m.file)) by {
            reveal_strlit("file");
            reveal_with_fuel(find_from, 2);
            String::lemma_round_trip(m.file);
        }
        assert(decode_field::<Duration>(
            entries,
            "interval"@,
        ) == Ok::<Duration, Fault>(m.interval)) by {
            reveal_strlit("file");
            reveal_strlit("interval");
            assert("file"@.len() == 4);
            assert("interval"@.len() == 8);
            reveal_with_fuel(find_from, 3);
            Duration::lemma_round_trip(m.interval);
        }
        assert(decode_field::<u32>(entries, "threshold"@) == Ok::<u32, Fault>(m.threshold)) by {
            reveal_strlit("file");
            reveal_strlit("interval");
            reveal_strlit("threshold");
            assert("file"@.len() == 4);
            assert("interval"@.len() == 8);
            assert("threshold"@.len() == 9);
            reveal_with_fuel(find_from, 4);
            u32::lemma_round_trip(m.threshold);
        }
    }

    proof fn lemma_encode_orderly(m: FileCheckerModel) {
        let entries = Self::encode(m)->Dict_0;
        assert(text_keys_ascend(entries)) by {
            assert(key_before("file"@, "interval"@)) by {
                reveal_strlit("file");
                reveal_strlit("interval");
                lemma_ascii_before("file"@, "interval"@, 0);
            }
            assert(key_before("interval"@, "threshold"@)) by {
                reveal_strlit("interval");
                reveal_strlit("threshold");
                lemma_ascii_before("interval"@, "threshold"@, 0);
            }
            lemma_ascend_by_neighbours(entries);
        }
        assert forall|i: int| 0 <= i < entries.len() implies orderly(
            (#[trigger] entries[i]).1,
        ) by {
            Duration::lemma_encode_orderly(m.interval);
            String::lemma_encode_orderly(m.file);
            u32::lemma_encode_orderly(m.threshold);
        }
    }

    fn default_value() -> (r: FileChecker) {
        FileChecker {
            interval: Duration::default_value(),
            file: String::default_value(),
            threshold: u32::default_value(),
        }
    }

    fn from_node(node: &Node) -> (r: Result<FileChecker, ConfigError>) {
        match node {
            Node::Null => Ok(Self::default_value()),
            Node::Dict(entries) => {
                proof {
                    lemma_dict_tree(*entries);
                }
                let interval = read_field::<Duration>(entries, "interval")?;
                let file = read_field::<String>(entries, "file")?;
                let threshold = read_field::<u32>(entries, "threshold")?;
                Ok(FileChecker { interval, file, threshold })
            },
            _ => Err(ConfigError::TypeMismatch(Expected::Dict)),
        }
    }

    fn to_node(&self) -> (node: Node) {
        let mut entries: Vec<(Node, Node)> = Vec::new();
        entries.push(entry("file", self.file.to_node()));
        entries.push(entry("interval", self.interval.to_node()));
        entries.push(entry("threshold", self.threshold.to_node()));
        proof {
            lemma_dict_tree(entries);
            assert(tree_pairs(entries@) =~= Self::encode(self.model())->Dict_0);
        }
        Node::Dict(entries)
    }
}

impl Lenient for FileChecker {
    proof fn lemma_null_is_default() {
    }
}

/// A check that a URL answers.
#[derive(Debug, PartialEq)]
pub struct HttpChecker {
    /// How long the request may take.
    pub timeout: Duration,
    /// The status that counts as healthy.
    pub status_code: i32,
    /// How often the check runs.
    pub interval: Duration,
    /// The URL requested.
    pub url: String,
    /// Headers sent with the request.
    pub headers: Header,
    /// Failures after which the check reports.
    pub threshold: u32,
}

/// `HttpChecker` as a mathematical value.
pub struct HttpCheckerModel {
    pub timeout: Duration,
    pub status_code: i32,
    pub interval: Duration,
    pub url: Seq<char>,
    pub headers: Seq<(Seq<char>, Seq<Seq<char>>)>,
    pub threshold: u32,
}

impl Codec for HttpChecker {
    type Model = HttpCheckerModel;

    open spec fn model(&self) -> HttpCheckerModel {
        HttpCheckerModel {
            timeout: self.timeout.model(),
            status_code: self.status_code.model(),
            interval: self.interval.model(),
            url: self.url.model(),
            headers: self.headers.model(),
            threshold: self.threshold.model(),
        }
    }

    open spec fn valid(m: HttpCheckerModel) -> bool {
        &&& Duration::valid(m.timeout)
        &&& i32::valid(m.status_code)
        &&& Duration::valid(m.interval)
        &&& String::valid(m.url)
        &&& Table::<Vec<String>>::valid(m.headers)
        &&& u32::valid(m.threshold)
    }

    open spec fn default_model() -> HttpCheckerModel {
        HttpCheckerModel {
            timeout: Duration::default_model(),
            status_code: i32::default_model(),
            interval: Duration::default_model(),
            url: String::default_model(),
            headers: Table::<Vec<String>>::default_model(),
            threshold: u32::default_model(),
        }
    }

    /// An explicit null reads as the default. A mapping is read field by
    /// field: a field whose key is missing takes its default, keys that
    /// name no field are passed over, and the first field in the order below
    /// that cannot be read decides the error. Anything else is no section.
    open spec fn decode(tree: Tree) -> Result<HttpCheckerModel, Fault> {
        match tree {
            Tree::Null => Ok(Self::default_model()),
            Tree::Dict(entries) => {
                let timeout = decode_field::<Duration>(entries, "timeout"@);
                let status_code = decode_field::<i32>(entries, "statuscode"@);
                let interval = decode_field::<Duration>(entries, "interval"@);
                let url = decode_field::<String>(entries, "url"@);
                let headers = decode_field::<Table<Vec<String>>>(entries, "headers"@);
                let threshold = decode_field::<u32>(entries, "threshold"@);
                if timeout is Err {
                    Err(timeout->Err_0)
                } else if status_code is Err {
                    Err(status_code->Err_0)
                } else if interval is Err {
                    Err(interval->Err_0)
                } else if url is Err {
                    Err(url->Err_0)
                } else if headers is Err {
                    Err(headers->Err_0)
                } else if threshold is Err {
                    Err(threshold->Err_0)
                } else {
                    Ok(
                        HttpCheckerModel {
                            timeout: timeout->Ok_0,
                            status_code: status_code->Ok_0,
                            interval: interval->Ok_0,
                            url: url->Ok_0,
                            headers: headers->Ok_0,
                            threshold: threshold->Ok_0,
                        },
                    )
                }
            },
            _ => Err(Fault::TypeMismatch(Expected::Dict)),
        }
    }

    /// A mapping with one entry for every field, in ascending key order.
    open spec fn encode(m: HttpCheckerModel) -> Tree {
        Tree::Dict(
            seq![
                (Tree::Text("headers"@), Table::<Vec<String>>::encode(m.headers)),
                (Tree::Text("interval"@), Duration::encode(m.interval)),
                (Tree::Text("statuscode"@), i32::encode(m.status_code)),
                (Tree::Text("threshold"@), u32::encode(m.threshold)),
                (Tree::Text("timeout"@), Duration::encode(m.timeout)),
                (Tree::Text("url"@), String::encode(m.url)),
            ],
        )
    }

    proof fn lemma_default_valid() {
        Duration::lemma_default_valid();
        i32::lemma_default_valid();
        String::lemma_default_valid();
        Table::<Vec<String>>::lemma_default_valid();
        u32::lemma_default_valid();
    }

    proof fn lemma_decode_valid(tree: Tree) {
        if let Tree::Dict(entries) = tree {
            lemma_field_valid::<Duration>(entries, "timeout"@);
            lemma_field_valid::<i32>(entries, "statuscode"@);
            lemma_field_valid::<Duration>(entries, "interval"@);
            lemma_field_valid::<String>(entries, "url"@);
            lemma_field_valid::<Table<Vec<String>>>(entries, "headers"@);
            lemma_field_valid::<u32>(entries, "threshold"@);
        } else {
            Self::lemma_default_valid();
        }
    }

    proof fn lemma_round_trip(m: HttpCheckerModel) {
        let entries = Self::encode(m)->Dict_0;
        assert(decode_field::<Table<Vec<String>>>(
            entries,
            "headers"@,
        ) == Ok::<Seq<(Seq<char>, Seq<Seq<char>>)>, Fault>(m.headers)) by {
            reveal_strlit("headers");
            reveal_with_fuel(find_from, 2);
            Table::<Vec<String>>::lemma_round_trip(m.headers);
        }
        assert(decode_field::<Duration>(
            entries,
            "interval"@,
        ) == Ok::<Duration, Fault>(m.interval)) by {
            reveal_strlit("headers");
            reveal_strlit("interval");
            assert("headers"@.len() == 7);
            assert("interval"@.len() == 8);
            reveal_with_fuel(find_from, 3);
            Duration::lemma_round_trip(m.interval);
        }
        assert(decode_field::<i32>(entries, "statuscode"@) == Ok::<i32, Fault>(m.status_code)) by {
            reveal_strlit("headers");
            reveal_strlit("interval");
            reveal_strlit("statuscode");
            assert("headers"@.len() == 7);
            assert("interval"@.len() == 8);
            assert("statuscode"@.len() == 10);
            reveal_with_fuel(find_from, 4);
            i32::lemma_round_trip(m.status_code);
        }
        assert(decode_field::<u32>(entries, "threshold"@) == Ok::<u32, Fault>(m.threshold)) by {
            reveal_strlit("headers");
            reveal_strlit("interval");
            reveal_strlit("statuscode");
            reveal_strlit("threshold");
            assert("headers"@.len() == 7);
            assert("interval"@.len() == 8);
            assert("threshold"@.len() == 9);
            assert("statuscode"@.len() == 10);
            reveal_with_fuel(find_from, 5);
            u32::lemma_round_trip(m.threshold);
        }
        assert(decode_field::<Duration>(
            entries,
            "timeout"@,
        ) == Ok::<Duration, Fault>(m.timeout)) by {
            reveal_strlit("headers");
            reveal_strlit("interval");
            reveal_strlit("statuscode");
            reveal_strlit("threshold");
            reveal_strlit("timeout");
            assert("headers"@[0] == 'h');
            assert("headers"@.len() == 7);
            assert("timeout"@[0] == 't');
            assert("timeout"@.len() == 7);
            assert("interval"@.len() == 8);
            assert("threshold"@.len() == 9);
            assert("statuscode"@.len() == 10);
            reveal_with_fuel(find_from, 6);
            Duration::lemma_round_trip(m.timeout);
        }
        assert(decode_field::<String>(entries, "url"@) == Ok::<Seq<char>, Fault>(m.url)) by {
            reveal_strlit("headers");
            reveal_strlit("interval");
            reveal_strlit("statuscode");
            reveal_strlit("threshold");
            reveal_strlit("timeout");
            reveal_strlit("url");
            assert("url"@.len() == 3);
            assert("headers"@[0] == 'h');
            assert("headers"@.len() == 7);
            assert("timeout"@[0] == 't');
            assert("timeout"@.len() == 7);
            assert("interval"@.len() == 8);
            assert("threshold"@.len() == 9);
            assert("statuscode"@.len() == 10);
            reveal_with_fuel(find_from, 7);
            String::lemma_round_trip(m.url);
        }
    }

    proof fn lemma_encode_orderly(m: HttpCheckerModel) {
        let entries = Self::encode(m)->Dict_0;
        assert(text_keys_ascend(entries)) by {
            assert(key_before("headers"@, "interval"@)) by {
                reveal_strlit("headers");
                reveal_strlit("interval");
                lemma_ascii_before("headers"@, "interval"@, 0);
            }
            assert(key_before("interval"@, "statuscode"@)) by {
                reveal_strlit("interval");
                reveal_strlit("statuscode");
                lemma_ascii_before("interval"@, "statuscode"@, 0);
            }
            assert(key_before("statuscode"@, "threshold"@)) by {
                reveal_strlit("statuscode");
                reveal_strlit("threshold");
                lemma_ascii_before("statuscode"@, "threshold"@, 0);
            }
            assert(key_before("threshold"@, "timeout"@)) by {
                reveal_strlit("threshold");
                reveal_strlit("timeout");
                lemma_ascii_before("threshold"@, "timeout"@, 1);
            }
            assert(key_before("timeout"@, "url"@)) by {
                reveal_strlit("timeout");
                reveal_strlit("url");
                lemma_ascii_before("timeout"@, "url"@, 0);
            }
            lemma_ascend_by_neighbours(entries);
        }
        assert forall|i: int| 0 <= i < entries.len() implies orderly(
            (#[trigger] entries[i]).1,
        ) by {
            Duration::lemma_encode_orderly(m.timeout);
            i32::lemma_encode_orderly(m.status_code);
            Duration::lemma_encode_orderly(m.interval);
            String::lemma_encode_orderly(m.url);
            Table::<Vec<String>>::lemma_encode_orderly(m.headers);
            u32::lemma_encode_orderly(m.threshold);
        }
    }

    fn default_value() -> (r: HttpChecker) {
        HttpChecker {
            timeout: Duration::default_value(),
            status_code: i32::default_value(),
            interval: Duration::default_value(),
            url: String::default_value(),
            headers: Table::<Vec<String>>::default_value(),
            threshold: u32::default_value(),
        }
    }

    fn from_node(node: &Node) -> (r: Result<HttpChecker, ConfigError>) {
        match node {
            Node::Null => Ok(Self::default_value()),
            Node::Dict(entries) => {
                proof {
                    lemma_dict_tree(*entries);
                }
                let timeout = read_field::<Duration>(entries, "timeout")?;
                let status_code = read_field::<i32>(entries, "statuscode")?;
                let interval = read_field::<Duration>(entries, "interval")?;
                let url = read_field::<String>(entries, "url")?;
                let headers = read_field::<Table<Vec<String>>>(entries, "headers")?;
                let threshold = read_field::<u32>(entries, "threshold")?;
                Ok(HttpChecker { timeout, status_code, interval, url, headers, threshold })
            },
            _ => Err(ConfigError::TypeMismatch(Expected::Dict)),
        }
    }

    fn to_node(&self) -> (node: Node) {
        let mut entries: Vec<(Node, Node)> = Vec::new();
        entries.push(entry("headers", self.headers.to_node()));
        entries.push(entry("interval", self.interval.to_node()));
        entries.push(entry("statuscode", self.status_code.to_node()));
        entries.push(entry("threshold", self.threshold.to_node()));
        entries.push(entry("timeout", self.timeout.to_node()));
        entries.push(entry("url", self.url.to_node()));
        proof {
            lemma_dict_tree(entries);
            assert(tree_pairs(entries@) =~= Self::encode(self.model())->Dict_0);
        }
        Node::Dict(entries)
    }
}

impl Lenient for HttpChecker {
    proof fn lemma_null_is_default() {
    }
}

/// A check that an address accepts connections.
#[derive(Debug, PartialEq)]
pub struct TcpChecker {
    /// How long connecting may take.
    pub timeout: Duration,
    /// How often the check runs.
    pub interval: Duration,
    /// The address connected to.
    pub add: String,
    /// Failures after which the check reports.
    pub threshold: u32,
}

/// `TcpChecker` as a mathematical value.
pub struct TcpCheckerModel {
    pub timeout: Duration,
    pub interval: Duration,
    pub add: Seq<char>,
    pub threshold: u32,
}

impl Codec for TcpChecker {
    type Model = TcpCheckerModel;

    open spec fn model(&self) -> TcpCheckerModel {
        TcpCheckerModel {
            timeout: self.timeout.model(),
            interval: self.interval.model(),
            add: self.add.model(),
            threshold: self.threshold.model(),
        }
    }

    open spec fn valid(m: TcpCheckerModel) -> bool {
        &&& Duration::valid(m.timeout)
        &&& Duration::valid(m.interval)
        &&& String::valid(m.add)
        &&& u32::valid(m.threshold)
    }

    open spec fn default_model() -> TcpCheckerModel {
        TcpCheckerModel {
            timeout: Duration::default_model(),
            interval: Duration::default_model(),
            add: String::default_model(),
            threshold: u32::default_model(),
        }
    }

    /// An explicit null reads as the default. A mapping is read field by
    /// field: a field whose key is missing takes its default, keys that
    /// name no field are passed over, and the first field in the order below
    /// that cannot be read decides the error. Anything else is no section.
    open spec fn decode(tree: Tree) -> Result<TcpCheckerModel, Fault> {
        match tree {
            Tree::Null => Ok(Self::default_model()),
            Tree::Dict(entries) => {
                let timeout = decode_field::<Duration>(entries, "timeout"@);
                let interval = decode_field::<Duration>(entries, "interval"@);
                let add = decode_field::<String>(entries, "add"@);
                let threshold = decode_field::<u32>(entries, "threshold"@);
                if timeout is Err {
                    Err(timeout->Err_0)
                } else if interval is Err {
                    Err(interval->Err_0)
                } else if add is Err {
                    Err(add->Err_0)
                } else if threshold is Err {
                    Err(threshold->Err_0)
                } else {
                    Ok(
                        TcpCheckerModel {
                            timeout: timeout->Ok_0,
                            interval: interval->Ok_0,
                            add: add->Ok_0,
                            threshold: threshold->Ok_0,
                        },
                    )
                }
            },
            _ => Err(Fault::TypeMismatch(Expected::Dict)),
        }
    }

    /// A mapping with one entry for every field, in ascending key order.
    open spec fn encode(m: TcpCheckerModel) -> Tree {
        Tree::Dict(
            seq![
                (Tree::Text("add"@), String::encode(m.add)),
                (Tree::Text("interval"@), Duration::encode(m.interval)),
                (Tree::Text("threshold"@), u32::encode(m.threshold)),
                (Tree::Text("timeout"@), Duration::encode(m.timeout)),
            ],
        )
    }

    proof fn lemma_default_valid() {
        Duration::lemma_default_valid();
        String::lemma_default_valid();
        u32::lemma_default_valid();
    }

    proof fn lemma_decode_valid(tree: Tree) {
        if let Tree::Dict(entries) = tree {
            lemma_field_valid::<Duration>(entries, "timeout"@);
            lemma_field_valid::<Duration>(entries, "interval"@);
            lemma_field_valid::<String>(entries, "add"@);
            lemma_field_valid::<u32>(entries, "threshold"@);
        } else {
            Self::lemma_default_valid();
        }
    }

    proof fn lemma_round_trip(m: TcpCheckerModel) {
        let entries = Self::encode(m)->Dict_0;
        assert(decode_field::<String>(entries, "add"@) == Ok::<Seq<char>, Fault>(m.add)) by {
            reveal_strlit("add");
            reveal_with_fuel(find_from, 2);
            String::lemma_round_trip(m.add);
        }
        assert(decode_field::<Duration>(
            entries,
            "interval"@,
        ) == Ok::<Duration, Fault>(m.interval)) by {
            reveal_strlit("add");
            reveal_strlit("interval");
            assert("add"@.len() == 3);
            assert("interval"@.len() == 8);
            reveal_with_fuel(find_from, 3);
            Duration::lemma_round_trip(m.interval);
        }
        assert(decode_field::<u32>(entries, "threshold"@) == Ok::<u32, Fault>(m.threshold)) by {
            reveal_strlit("add");
            reveal_strlit("interval");
            reveal_strlit("threshold");
            assert("add"@.len() == 3);
            assert("interval"@.len() == 8);
            assert("threshold"@.len() == 9);
            reveal_with_fuel(find_from, 4);
            u32::lemma_round_trip(m.threshold);
        }
        assert(decode_field::<Duration>(
            entries,
            "timeout"@,
        ) == Ok::<Duration, Fault>(m.timeout)) by {
            reveal_strlit("add");
            reveal_strlit("interval");
            reveal_strlit("threshold");
            reveal_strlit("timeout");
            assert("add"@.len() == 3);
            assert("timeout"@.len() == 7);
            assert("interval"@.len() == 8);
            assert("threshold"@.len() == 9);
            reveal_with_fuel(find_from, 5);
            Duration::lemma_round_trip(m.timeout);
        }
    }

    proof fn lemma_encode_orderly(m: TcpCheckerModel) {
        let entries = Self::encode(m)->Dict_0;
        assert(text_keys_ascend(entries)) by {
            assert(key_before("add"@, "interval"@)) by {
                reveal_strlit("add");
                reveal_strlit("interval");
                lemma_ascii_before("add"@, "interval"@, 0);
            }
            assert(key_before("interval"@, "threshold"@)) by {
                reveal_strlit("interval");
                reveal_strlit("threshold");
                lemma_ascii_before("interval"@, "threshold"@, 0);
            }
            assert(key_before("threshold"@, "timeout"@)) by {
                reveal_strlit("threshold");
                reveal_strlit("timeout");
                lemma_ascii_before("threshold"@, "timeout"@, 1);
            }
            lemma_ascend_by_neighbours(entries);
        }
        assert forall|i: int| 0 <= i < entries.len() implies orderly(
            (#[trigger] entries[i]).1,
        ) by {
            Duration::lemma_encode_orderly(m.timeout);
            Duration::lemma_encode_orderly(m.interval);
            String::lemma_encode_orderly(m.add);
            u32::lemma_encode_orderly(m.threshold);
        }
    }

    fn default_value() -> (r: TcpChecker) {
        TcpChecker {
            timeout: Duration::default_value(),
            interval: Duration::default_value(),
            add: String::default_value(),
            threshold: u32::default_value(),
        }
    }

    fn from_node(node: &Node) -> (r: Result<TcpChecker, ConfigError>) {
        match node {
            Node::Null => Ok(Self::default_value()),
            Node::Dict(entries) => {
                proof {
                    lemma_dict_tree(*entries);
                }
                let timeout = read_field::<Duration>(entries, "timeout")?;
                let interval = read_field::<Duration>(entries, "interval")?;
                let add = read_field::<String>(entries, "add")?;
                let threshold = read_field::<u32>(entries, "threshold")?;
                Ok(TcpChecker { timeout, interval, add, threshold })
            },
            _ => Err(ConfigError::TypeMismatch(Expected::Dict)),
        }
    }

    fn to_node(&self) -> (node: Node) {
        let mut entries: Vec<(Node, Node)> = Vec::new();
        entries.push(entry("add", self.add.to_node()));
        entries.push(entry("interval", self.interval.to_node()));
        entries.push(entry("threshold", self.threshold.to_node()));
        entries.push(entry("timeout", self.timeout.to_node()));
        proof {
            lemma_dict_tree(entries);
            assert(tree_pairs(entries@) =~= Self::encode(self.model())->Dict_0);
        }
        Node::Dict(entries)
    }
}

impl Lenient for TcpChecker {
    proof fn lemma_null_is_default() {
    }
}

/// A check of the storage driver.
#[derive(Debug, PartialEq)]
pub struct StorageDriver {
    /// Whether the check runs.
    pub enabled: bool,
    /// How often the check runs.
    pub interval: Duration,
    /// Failures after which the check reports.
    pub threshold: u32,
}

/// `StorageDriver` as a mathematical value.
pub struct StorageDriverModel {
    pub enabled: bool,
    pub interval: Duration,
    pub threshold: u32,
}

impl Codec for StorageDriver {
    type Model = StorageDriverModel;

    open spec fn model(&self) -> StorageDriverModel {
        StorageDriverModel {
            enabled: self.enabled.model(),
            interval: self.interval.model(),
            threshold: self.threshold.model(),
        }
    }

    open spec fn valid(m: StorageDriverModel) -> bool {
        &&& bool::valid(m.enabled)
        &&& Duration::valid(m.interval)
        &&& u32::valid(m.threshold)
    }

    open spec fn default_model() -> StorageDriverModel {
        StorageDriverModel {
            enabled: bool::default_model(),
            interval: Duration::default_model(),
            threshold: u32::default_model(),
        }
    }

    /// An explicit null reads as the default. A mapping is read field by
    /// field: a field whose key is missing takes its default, keys that
    /// name no field are passed over, and the first field in the order below
    /// that cannot be read decides the error. Anything else is no section.
    open spec fn decode(tree: Tree) -> Result<StorageDriverModel, Fault> {
        match tree {
            Tree::Null => Ok(Self::default_model()),
            Tree::Dict(entries) => {
                let enabled = decode_field::<bool>(entries, "enabled"@);
                let interval = decode_field::<Duration>(entries, "interval"@);
                let threshold = decode_field::<u32>(entries, "threshold"@);
                if enabled is Err {
                    Err(enabled->Err_0)
                } else if interval is Err {
                    Err(interval->Err_0)
                } else if threshold is Err {
                    Err(threshold->Err_0)
                } else {
                    Ok(
                        StorageDriverModel {
                            enabled: enabled->Ok_0,
                            interval: interval->Ok_0,
                            threshold: threshold->Ok_0,
                        },
                    )
                }
            },
            _ => Err(Fault::TypeMismatch(Expected::Dict)),
        }
    }

    /// A mapping with one entry for every field, in ascending key order.
    open spec fn encode(m: StorageDriverModel) -> Tree {
        Tree::Dict(
            seq![
                (Tree::Text("enabled"@), bool::encode(m.enabled)),
                (Tree::Text("interval"@), Duration::encode(m.interval)),
                (Tree::Text("threshold"@), u32::encode(m.threshold)),
            ],
        )
    }

    proof fn lemma_default_valid() {
        bool::lemma_default_valid();
        Duration::lemma_default_valid();
        u32::lemma_default_valid();
    }

    proof fn lemma_decode_valid(tree: Tree) {
        if let Tree::Dict(entries) = tree {
            lemma_field_valid::<bool>(entries, "enabled"@);
            lemma_field_valid::<Duration>(entries, "interval"@);
            lemma_field_valid::<u32>(entries, "threshold"@);
        } else {
            Self::lemma_default_valid();
        }
    }

    proof fn lemma_round_trip(m: StorageDriverModel) {
        let entries = Self::encode(m)->Dict_0;
        assert(decode_field::<bool>(entries, "enabled"@) == Ok::<bool, Fault>(m.enabled)) by {
            reveal_strlit("enabled");
            reveal_with_fuel(find_from, 2);
            bool::lemma_round_trip(m.enabled);
        }
        assert(decode_field::<Duration>(
            entries,
            "interval"@,
        ) == Ok::<Duration, Fault>(m.interval)) by {
            reveal_strlit("enabled");
            reveal_strlit("interval");
            assert("enabled"@.len() == 7);
            assert("interval"@.len() == 8);
            reveal_with_fuel(find_from, 3);
            Duration::lemma_round_trip(m.interval);
        }
        assert(decode_field::<u32>(entries, "threshold"@) == Ok::<u32, Fault>(m.threshold)) by {
            reveal_strlit("enabled");
            reveal_strlit("interval");
            reveal_strlit("threshold");
            assert("enabled"@.len() == 7);
            assert("interval"@.len() == 8);
            assert("threshold"@.len() == 9);
            reveal_with_fuel(find_from, 4);
            u32::lemma_round_trip(m.threshold);
        }
    }

    proof fn lemma_encode_orderly(m: StorageDriverModel) {
        let entries = Self::encode(m)->Dict_0;
        assert(text_keys_ascend(entries)) by {
            assert(key_before("enabled"@, "interval"@)) by {
                reveal_strlit("enabled");
                reveal_strlit("interval");
                lemma_ascii_before("enabled"@, "interval"@, 0);
            }
            assert(key_before("interval"@, "threshold"@)) by {
                reveal_strlit("interval");
                reveal_strlit("threshold");
                lemma_ascii_before("interval"@, "threshold"@, 0);
            }
            lemma_ascend_by_neighbours(entries);
        }
        assert forall|i: int| 0 <= i < entries.len() implies orderly(
            (#[trigger] entries[i]).1,
        ) by {
            bool::lemma_encode_orderly(m.enabled);
            Duration::lemma_encode_orderly(m.interval);
            u32::lemma_encode_orderly(m.threshold);
        }
    }

    fn default_value() -> (r: StorageDriver) {
        StorageDriver {
            enabled: bool::default_value(),
            interval: Duration::default_value(),
            threshold: u32::default_value(),
        }
    }

    fn from_node(node: &Node) -> (r: Result<StorageDriver, ConfigError>) {
        match node {
            Node::Null => Ok(Self::default_value()),
            Node::Dict(entries) => {
                proof {
                    lemma_dict_tree(*entries);
                }
                let enabled = read_field::<bool>(entries, "enabled")?;
                let interval = read_field::<Duration>(entries, "interval")?;
                let threshold = read_field::<u32>(entries, "threshold")?;
                Ok(StorageDriver { enabled, interval, threshold })
            },
            _ => Err(ConfigError::TypeMismatch(Expected::Dict)),
        }
    }

    fn to_node(&self) -> (node: Node) {
        let mut entries: Vec<(Node, Node)> = Vec::new();
        entries.push(entry("enabled", self.enabled.to_node()));
        entries.push(entry("interval", self.interval.to_node()));
        entries.push(entry("threshold", self.threshold.to_node()));
        proof {
            lemma_dict_tree(entries);
            assert(tree_pairs(entries@) =~= Self::encode(self.model())->Dict_0);
        }
        Node::Dict(entries)
    }
}

impl Lenient for StorageDriver {
    proof fn lemma_null_is_default() {
    }
}

/// The health section.
#[derive(Debug, PartialEq)]
pub struct Health {
    /// The file checks.
    pub file_checkers: Vec<FileChecker>,
    /// The HTTP checks.
    pub http_checkers: Vec<HttpChecker>,
    /// The TCP checks.
    pub tcp_checkers: Vec<TcpChecker>,
    /// The check of the storage driver.
    pub storage_driver: StorageDriver,
}

/// `Health` as a mathematical value.
pub struct HealthModel {
    pub file_checkers: Seq<FileCheckerModel>,
    pub http_checkers: Seq<HttpCheckerModel>,
    pub tcp_checkers: Seq<TcpCheckerModel>,
    pub storage_driver: StorageDriverModel,
}

impl Codec for Health {
    type Model = HealthModel;

    open spec fn model(&self) -> HealthModel {
        HealthModel {
            file_checkers: self.file_checkers.model(),
            http_checkers: self.http_checkers.model(),
            tcp_checkers: self.tcp_checkers.model(),
            storage_driver: self.storage_driver.model(),
        }
    }

    open spec fn valid(m: HealthModel) -> bool {
        &&& Vec::<FileChecker>::valid(m.file_checkers)
        &&& Vec::<HttpChecker>::valid(m.http_checkers)
        &&& Vec::<TcpChecker>::valid(m.tcp_checkers)
        &&& StorageDriver::valid(m.storage_driver)
    }

    open spec fn default_model() -> HealthModel {
        HealthModel {
            file_checkers: Vec::<FileChecker>::default_model(),
            http_checkers: Vec::<HttpChecker>::default_model(),
            tcp_checkers: Vec::<TcpChecker>::default_model(),
            storage_driver: StorageDriver::default_model(),
        }
    }

    /// An explicit null reads as the default. A mapping is read field by
    /// field: a field whose key is missing takes its default, keys that
    /// name no field are passed over, and the first field in the order below
    /// that cannot be read decides the error. Anything else is no section.
    open spec fn decode(tree: Tree) -> Result<HealthModel, Fault> {
        match tree {
            Tree::Null => Ok(Self::default_model()),
            Tree::Dict(entries) => {
                let file_checkers = decode_field::<Vec<FileChecker>>(entries, "file"@);
                let http_checkers = decode_field::<Vec<HttpChecker>>(entries, "http"@);
                let tcp_checkers = decode_field::<Vec<TcpChecker>>(entries, "tcp"@);
                let storage_driver = decode_field::<StorageDriver>(entries, "storagedriver"@);
                if file_checkers is Err {
                    Err(file_checkers->Err_0)
                } else if http_checkers is Err {
                    Err(http_checkers->Err_0)
                } else if tcp_checkers is Err {
                    Err(tcp_checkers->Err_0)
                } else if storage_driver is Err {
                    Err(storage_driver->Err_0)
                } else {
                    Ok(
                        HealthModel {
                            file_checkers: file_checkers->Ok_0,
                            http_checkers: http_checkers->Ok_0,
                            tcp_checkers: tcp_checkers->Ok_0,
                            storage_driver: storage_driver->Ok_0,
                        },
                    )
                }
            },
            _ => Err(Fault::TypeMismatch(Expected::Dict)),
        }
    }

    /// A mapping with one entry for every field, in ascending key order.
    open spec fn encode(m: HealthModel) -> Tree {
        Tree::Dict(
            seq![
                (Tree::Text("file"@), Vec::<FileChecker>::encode(m.file_checkers)),
                (Tree::Text("http"@), Vec::<HttpChecker>::encode(m.http_checkers)),
                (Tree::Text("storagedriver"@), StorageDriver::encode(m.storage_driver)),
                (Tree::Text("tcp"@), Vec::<TcpChecker>::encode(m.tcp_checkers)),
            ],
        )
    }

    proof fn lemma_default_valid() {
        Vec::<FileChecker>::lemma_default_valid();
        Vec::<HttpChecker>::lemma_default_valid();
        Vec::<TcpChecker>::lemma_default_valid();
        StorageDriver::lemma_default_valid();
    }

    proof fn lemma_decode_valid(tree: Tree) {
        if let Tree::Dict(entries) = tree {
            lemma_field_valid::<Vec<FileChecker>>(entries, "file"@);
            lemma_field_valid::<Vec<HttpChecker>>(entries, "http"@);
            lemma_field_valid::<Vec<TcpChecker>>(entries, "tcp"@);
            lemma_field_valid::<StorageDriver>(entries, "storagedriver"@);
        } else {
            Self::lemma_default_valid();
        }
    }

    proof fn lemma_round_trip(m: HealthModel) {
        let entries = Self::encode(m)->Dict_0;
        assert(decode_field::<Vec<FileChecker>>(
            entries,
            "file"@,
        ) == Ok::<Seq<FileCheckerModel>, Fault>(m.file_checkers)) by {
            reveal_strlit("file");
            reveal_with_fuel(find_from, 2);
            Vec::<FileChecker>::lemma_round_trip(m.file_checkers);
        }
        assert(decode_field::<Vec<HttpChecker>>(
            entries,
            "http"@,
        ) == Ok::<Seq<HttpCheckerModel>, Fault>(m.http_checkers)) by {
            reveal_strlit("file");
            reveal_strlit("http");
            assert("file"@[0] == 'f');
            assert("http"@[0] == 'h');
            reveal_with_fuel(find_from, 3);
            Vec::<HttpChecker>::lemma_round_trip(m.http_checkers);
        }
        assert(decode_field::<StorageDriver>(
            entries,
            "storagedriver"@,
        ) == Ok::<StorageDriverModel, Fault>(m.storage_driver)) by {
            reveal_strlit("file");
            reveal_strlit("http");
            reveal_strlit("storagedriver");
            assert("file"@[0] == 'f');
            assert("file"@.len() == 4);
            assert("http"@[0] == 'h');
            assert("http"@.len() == 4);
            assert("storagedriver"@.len() == 13);
            reveal_with_fuel(find_from, 4);
            StorageDriver::lemma_round_trip(m.storage_driver);
        }
        assert(decode_field::<Vec<TcpChecker>>(
            entries,
            "tcp"@,
        ) == Ok::<Seq<TcpCheckerModel>, Fault>(m.tcp_checkers)) by {
            reveal_strlit("file");
            reveal_strlit("http");
            reveal_strlit("storagedriver");
            reveal_strlit("tcp");
            assert("tcp"@.len() == 3);
            assert("file"@[0] == 'f');
            assert("file"@.len() == 4);
            assert("http"@[0] == 'h');
            assert("http"@.len() == 4);
            assert("storagedriver"@.len() == 13);
            reveal_with_fuel(find_from, 5);
            Vec::<TcpChecker>::lemma_round_trip(m.tcp_checkers);
        }
    }

    proof fn lemma_encode_orderly(m: HealthModel) {
        let entries = Self::encode(m)->Dict_0;
        assert(text_keys_ascend(entries)) by {
            assert(key_before("file"@, "http"@)) by {
                reveal_strlit("file");
                reveal_strlit("http");
                lemma_ascii_before("file"@, "http"@, 0);
            }
            assert(key_before("http"@, "storagedriver"@)) by {
                reveal_strlit("http");
                reveal_strlit("storagedriver");
                lemma_ascii_before("http"@, "storagedriver"@, 0);
            }
            assert(key_before("storagedriver"@, "tcp"@)) by {
                reveal_strlit("storagedriver");
                reveal_strlit("tcp");
                lemma_ascii_before("storagedriver"@, "tcp"@, 0);
            }
            lemma_ascend_by_neighbours(entries);
        }
        assert forall|i: int| 0 <= i < entries.len() implies orderly(
            (#[trigger] entries[i]).1,
        ) by {
            Vec::<FileChecker>::lemma_encode_orderly(m.file_checkers);
            Vec::<HttpChecker>::lemma_encode_orderly(m.http_checkers);
            Vec::<TcpChecker>::lemma_encode_orderly(m.tcp_checkers);
            StorageDriver::lemma_encode_orderly(m.storage_driver);
        }
    }

    fn default_value() -> (r: Health) {
        Health {
            file_checkers: Vec::<FileChecker>::default_value(),
            http_checkers: Vec::<HttpChecker>::default_value(),
            tcp_checkers: Vec::<TcpChecker>::default_value(),
            storage_driver: StorageDriver::default_value(),
        }
    }

    fn from_node(node: &Node) -> (r: Result<Health, ConfigError>) {
        match node {
            Node::Null => Ok(Self::default_value()),
            Node::Dict(entries) => {
                proof {
                    lemma_dict_tree(*entries);
                }
                let file_checkers = read_field::<Vec<FileChecker>>(entries, "file")?;
                let http_checkers = read_field::<Vec<HttpChecker>>(entries, "http")?;
                let tcp_checkers = read_field::<Vec<TcpChecker>>(entries, "tcp")?;
                let storage_driver = read_field::<StorageDriver>(entries, "storagedriver")?;
                Ok(Health { file_checkers, http_checkers, tcp_checkers, storage_driver })
            },
            _ => Err(ConfigError::TypeMismatch(Expected::Dict)),
        }
    }

    fn to_node(&self) -> (node: Node) {
        let mut entries: Vec<(Node, Node)> = Vec::new();
        entries.push(entry("file", self.file_checkers.to_node()));
        entries.push(entry("http", self.http_checkers.to_node()));
        entries.push(entry("storagedriver", self.storage_driver.to_node()));
        entries.push(entry("tcp", self.tcp_checkers.to_node()));
        proof {
            lemma_dict_tree(entries);
            assert(tree_pairs(entries@) =~= Self::encode(self.model())->Dict_0);
        }
        Node::Dict(entries)
    }
}

impl Lenient for Health {
    proof fn lemma_null_is_default() {
    }
}

} // verus!
