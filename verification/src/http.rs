//! The HTTP section: listener, TLS, headers, debug server.

use crate::codec::{decode_field, entry, find_from, lemma_field_valid, read_field, Codec, Lenient};
use crate::duration::Duration;
use crate::error::{ConfigError, Expected, Fault};
use crate::table::Table;
use crate::text::{key_before, lemma_ascii_before};
use crate::tree::{
    lemma_ascend_by_neighbours, lemma_dict_tree, orderly, text_keys_ascend, tree_pairs, Node, Tree,
};
use vstd::prelude::*;

verus! {

/// HTTP headers: each name with its values.
pub type Header = Table<Vec<String>>;

/// Certificates from Let's Encrypt.
#[derive(Debug, PartialEq)]
pub struct LetsEncrypt {
    /// Where certificates are cached.
    pub cache_file: String,
    /// The address to register with.
    pub email: String,
    /// The hosts to get certificates for.
    pub hosts: Vec<String>,
}

/// `LetsEncrypt` as a mathematical value.
pub struct LetsEncryptModel {
    pub cache_file: Seq<char>,
    pub email: Seq<char>,
    pub hosts: Seq<Seq<char>>,
}

impl Codec for LetsEncrypt {
    type Model = LetsEncryptModel;

    open spec fn model(&self) -> LetsEncryptModel {
        LetsEncryptModel {
            cache_file: self.cache_file.model(),
            email: self.email.model(),
            hosts: self.hosts.model(),
        }
    }

    open spec fn valid(m: LetsEncryptModel) -> bool {
        &&& String::valid(m.cache_file)
        &&& String::valid(m.email)
        &&& Vec::<String>::valid(m.hosts)
    }

    open spec fn default_model() -> LetsEncryptModel {
        LetsEncryptModel {
            cache_file: String::default_model(),
            email: String::default_model(),
            hosts: Vec::<String>::default_model(),
        }
    }

    /// An explicit null reads as the default. A mapping is read field by
    /// field: a field whose key is missing takes its default, keys that
    /// name no field are passed over, and the first field in the order below
    /// that cannot be read decides the error. Anything else is no section.
    open spec fn decode(tree: Tree) -> Result<LetsEncryptModel, Fault> {
        match tree {
            Tree::Null => Ok(Self::default_model()),
            Tree::Dict(entries) => {
                let cache_file = decode_field::<String>(entries, "cachefile"@);
                let email = decode_field::<String>(entries, "email"@);
                let hosts = decode_field::<Vec<String>>(entries, "hosts"@);
                if cache_file is Err {
                    Err(cache_file->Err_0)
                } else if email is Err {
                    Err(email->Err_0)
                } else if hosts is Err {
                    Err(hosts->Err_0)
                } else {
                    Ok(
                        LetsEncryptModel {
                            cache_file: cache_file->Ok_0,
                            email: email->Ok_0,
                            hosts: hosts->Ok_0,
                        },
                    )
                }
            },
            _ => Err(Fault::TypeMismatch(Expected::Dict)),
        }
    }

    /// A mapping with one entry for every field, in ascending key order.
    open spec fn encode(m: LetsEncryptModel) -> Tree {
        Tree::Dict(
            seq![
                (Tree::Text("cachefile"@), String::encode(m.cache_file)),
                (Tree::Text("email"@), String::encode(m.email)),
                (Tree::Text("hosts"@), Vec::<String>::encode(m.hosts)),
            ],
        )
    }

    proof fn lemma_default_valid() {
        String::lemma_default_valid();
        Vec::<String>::lemma_default_valid();
    }

    proof fn lemma_decode_valid(tree: Tree) {
        if let Tree::Dict(entries) = tree {
            lemma_field_valid::<String>(entries, "cachefile"@);
            lemma_field_valid::<String>(entries, "email"@);
            lemma_field_valid::<Vec<String>>(entries, "hosts"@);
        } else {
            Self::lemma_default_valid();
        }
    }

    proof fn lemma_round_trip(m: LetsEncryptModel) {
        let entries = Self::encode(m)->Dict_0;
        assert(decode_field::<String>(
            entries,
            "cachefile"@,
        ) == Ok::<Seq<char>, Fault>(m.cache_file)) by {
            reveal_strlit("cachefile");
            reveal_with_fuel(find_from, 2);
            String::lemma_round_trip(m.cache_file);
        }
        assert(decode_field::<String>(entries, "email"@) == Ok::<Seq<char>, Fault>(m.email)) by {
            reveal_strlit("cachefile");
            reveal_strlit("email");
            assert("email"@.len() == 5);
            assert("cachefile"@.len() == 9);
            reveal_with_fuel(find_from, 3);
            String::lemma_round_trip(m.email);
        }
        assert(decode_field::<Vec<String>>(
            entries,
            "hosts"@,
        ) == Ok::<Seq<Seq<char>>, Fault>(m.hosts)) by {
            reveal_strlit("cachefile");
            reveal_strlit("email");
            reveal_strlit("hosts");
            assert("email"@[0] == 'e');
            assert("email"@.len() == 5);
            assert("hosts"@[0] == 'h');
            assert("hosts"@.len() == 5);
            assert("cachefile"@.len() == 9);
            reveal_with_fuel(find_from, 4);
            Vec::<String>::lemma_round_trip(m.hosts);
        }
    }

    proof fn lemma_encode_orderly(m: LetsEncryptModel) {
        let entries = Self::encode(m)->Dict_0;
        assert(text_keys_ascend(entries)) by {
            assert(key_before("cachefile"@, "email"@)) by {
                reveal_strlit("cachefile");
                reveal_strlit("email");
                lemma_ascii_before("cachefile"@, "email"@, 0);
            }
            assert(key_before("email"@, "hosts"@)) by {
                reveal_strlit("email");
                reveal_strlit("hosts");
                lemma_ascii_before("email"@, "hosts"@, 0);
            }
            lemma_ascend_by_neighbours(entries);
        }
        assert forall|i: int| 0 <= i < entries.len() implies orderly(
            (#[trigger] entries[i]).1,
        ) by {
            String::lemma_encode_orderly(m.cache_file);
            String::lemma_encode_orderly(m.email);
            Vec::<String>::lemma_encode_orderly(m.hosts);
        }
    }

    fn default_value() -> (r: LetsEncrypt) {
        LetsEncrypt {
            cache_file: String::default_value(),
            email: String::default_value(),
            hosts: Vec::<String>::default_value(),
        }
    }

    fn from_node(node: &Node) -> (r: Result<LetsEncrypt, ConfigError>) {
        match node {
            Node::Null => Ok(Self::default_value()),
            Node::Dict(entries) => {
                proof {
                    lemma_dict_tree(*entries);
                }
                let cache_file = read_field::<String>(entries, "cachefile")?;
                let email = read_field::<String>(entries, "email")?;
                let hosts = read_field::<Vec<String>>(entries, "hosts")?;
                Ok(LetsEncrypt { cache_file, email, hosts })
            },
            _ => Err(ConfigError::TypeMismatch(Expected::Dict)),
        }
    }

    fn to_node(&self) -> (node: Node) {
        let mut entries: Vec<(Node, Node)> = Vec::new();
        entries.push(entry("cachefile", self.cache_file.to_node()));
        entries.push(entry("email", self.email.to_node()));
        entries.push(entry("hosts", self.hosts.to_node()));
        proof {
            lemma_dict_tree(entries);
            assert(tree_pairs(entries@) =~= Self::encode(self.model())->Dict_0);
        }
        Node::Dict(entries)
    }
}

impl Lenient for LetsEncrypt {
    proof fn lemma_null_is_default() {
    }
}

/// TLS settings of the listener.
#[derive(Debug, PartialEq)]
pub struct Tls {
    /// Path of the certificate.
    pub certificate: String,
    /// Path of the private key.
    pub key: String,
    /// Paths of the authorities that sign client certificates.
    pub client_cas: Vec<String>,
    /// The lowest TLS version accepted.
    pub minimum_tls: String,
    /// Certificates from Let's Encrypt.
    pub lets_encrypt: LetsEncrypt,
}

/// `Tls` as a mathematical value.
pub struct TlsModel {
    pub certificate: Seq<char>,
    pub key: Seq<char>,
    pub client_cas: Seq<Seq<char>>,
    pub minimum_tls: Seq<char>,
    pub lets_encrypt: LetsEncryptModel,
}

impl Codec for Tls {
    type Model = TlsModel;

    open spec fn model(&self) -> TlsModel {
        TlsModel {
            certificate: self.certificate.model(),
            key: self.key.model(),
            client_cas: self.client_cas.model(),
            minimum_tls: self.minimum_tls.model(),
            lets_encrypt: self.lets_encrypt.model(),
        }
    }

    open spec fn valid(m: TlsModel) -> bool {
        &&& String::valid(m.certificate)
        &&& String::valid(m.key)
        &&& Vec::<String>::valid(m.client_cas)
        &&& String::valid(m.minimum_tls)
        &&& LetsEncrypt::valid(m.lets_encrypt)
    }

    open spec fn default_model() -> TlsModel {
        TlsModel {
            certificate: String::default_model(),
            key: String::default_model(),
            client_cas: Vec::<String>::default_model(),
            minimum_tls: String::default_model(),
            lets_encrypt: LetsEncrypt::default_model(),
        }
    }

    /// An explicit null reads as the default. A mapping is read field by
    /// field: a field whose key is missing takes its default, keys that
    /// name no field are passed over, and the first field in the order below
    /// that cannot be read decides the error. Anything else is no section.
    open spec fn decode(tree: Tree) -> Result<TlsModel, Fault> {
        match tree {
            Tree::Null => Ok(Self::default_model()),
            Tree::Dict(entries) => {
                let certificate = decode_field::<String>(entries, "certificate"@);
                let key = decode_field::<String>(entries, "key"@);
                let client_cas = decode_field::<Vec<String>>(entries, "clientcas"@);
                let minimum_tls = decode_field::<String>(entries, "minimumtls"@);
                let lets_encrypt = decode_field::<LetsEncrypt>(entries, "letsencrypt"@);
                if certificate is Err {
                    Err(certificate->Err_0)
                } else if key is Err {
                    Err(key->Err_0)
                } else if client_cas is Err {
                    Err(client_cas->Err_0)
                } else if minimum_tls is Err {
                    Err(minimum_tls->Err_0)
                } else if lets_encrypt is Err {
                    Err(lets_encrypt->Err_0)
                } else {
                    Ok(
                        TlsModel {
                            certificate: certificate->Ok_0,
                            key: key->Ok_0,
                            client_cas: client_cas->Ok_0,
                            minimum_tls: minimum_tls->Ok_0,
                            lets_encrypt: lets_encrypt->Ok_0,
                        },
                    )
                }
            },
            _ => Err(Fault::TypeMismatch(Expected::Dict)),
        }
    }

    /// A mapping with one entry for every field, in ascending key order.
    open spec fn encode(m: TlsModel) -> Tree {
        Tree::Dict(
            seq![
                (Tree::Text("certificate"@), String::encode(m.certificate)),
                (Tree::Text("clientcas"@), Vec::<String>::encode(m.client_cas)),
                (Tree::Text("key"@), String::encode(m.key)),
                (Tree::Text("letsencrypt"@), LetsEncrypt::encode(m.lets_encrypt)),
                (Tree::Text("minimumtls"@), String::encode(m.minimum_tls)),
            ],
        )
    }

    proof fn lemma_default_valid() {
        String::lemma_default_valid();
        Vec::<String>::lemma_default_valid();
        LetsEncrypt::lemma_default_valid();
    }

    proof fn lemma_decode_valid(tree: Tree) {
        if let Tree::Dict(entries) = tree {
            lemma_field_valid::<String>(entries, "certificate"@);
            lemma_field_valid::<String>(entries, "key"@);
            lemma_field_valid::<Vec<String>>(entries, "clientcas"@);
            lemma_field_valid::<String>(entries, "minimumtls"@);
            lemma_field_valid::<LetsEncrypt>(entries, "letsencrypt"@);
        } else {
            Self::lemma_default_valid();
        }
    }

    proof fn lemma_round_trip(m: TlsModel) {
        let entries = Self::encode(m)->Dict_0;
        assert(decode_field::<String>(
            entries,
            "certificate"@,
        ) == Ok::<Seq<char>, Fault>(m.certificate)) by {
            reveal_strlit("certificate");
            reveal_with_fuel(find_from, 2);
            String::lemma_round_trip(m.certificate);
        }
        assert(decode_field::<Vec<String>>(
            entries,
            "clientcas"@,
        ) == Ok::<Seq<Seq<char>>, Fault>(m.client_cas)) by {
            reveal_strlit("certificate");
            reveal_strlit("clientcas");
            assert("clientcas"@.len() == 9);
            assert("certificate"@.len() == 11);
            reveal_with_fuel(find_from, 3);
            Vec::<String>::lemma_round_trip(m.client_cas);
        }
        assert(decode_field::<String>(entries, "key"@) == Ok::<Seq<char>, Fault>(m.key)) by {
            reveal_strlit("certificate");
            reveal_strlit("clientcas");
            reveal_strlit("key");
            assert("key"@.len() == 3);
            assert("clientcas"@.len() == 9);
            assert("certificate"@.len() == 11);
            reveal_with_fuel(find_from, 4);
            String::lemma_round_trip(m.key);
        }
        assert(decode_field::<LetsEncrypt>(
            entries,
            "letsencrypt"@,
        ) == Ok::<LetsEncryptModel, Fault>(m.lets_encrypt)) by {
            reveal_strlit("certificate");
            reveal_strlit("clientcas");
            reveal_strlit("key");
            reveal_strlit("letsencrypt");
            assert("key"@.len() == 3);
            assert("clientcas"@.len() == 9);
            assert("certificate"@[0] == 'c');
            assert("certificate"@.len() == 11);
            assert("letsencrypt"@[0] == 'l');
            assert("letsencrypt"@.len() == 11);
            reveal_with_fuel(find_from, 5);
            LetsEncrypt::lemma_round_trip(m.lets_encrypt);
        }
        assert(decode_field::<String>(
            entries,
            "minimumtls"@,
        ) == Ok::<Seq<char>, Fault>(m.minimum_tls)) by {
            reveal_strlit("certificate");
            reveal_strlit("clientcas");
            reveal_strlit("key");
            reveal_strlit("letsencrypt");
            reveal_strlit("minimumtls");
            assert("key"@.len() == 3);
            assert("clientcas"@.len() == 9);
            assert("minimumtls"@.len() == 10);
            assert("certificate"@[0] == 'c');
            assert("certificate"@.len() == 11);
            assert("letsencrypt"@[0] == 'l');
            assert("letsencrypt"@.len() == 11);
            reveal_with_fuel(find_from, 6);
            String::lemma_round_trip(m.minimum_tls);
        }
    }

    proof fn lemma_encode_orderly(m: TlsModel) {
        let entries = Self::encode(m)->Dict_0;
        assert(text_keys_ascend(entries)) by {
            assert(key_before("certificate"@, "clientcas"@)) by {
                reveal_strlit("certificate");
                reveal_strlit("clientcas");
                lemma_ascii_before("certificate"@, "clientcas"@, 1);
            }
            assert(key_before("clientcas"@, "key"@)) by {
                reveal_strlit("clientcas");
                reveal_strlit("key");
                lemma_ascii_before("clientcas"@, "key"@, 0);
            }
            assert(key_before("key"@, "letsencrypt"@)) by {
                reveal_strlit("key");
                reveal_strlit("letsencrypt");
                lemma_ascii_before("key"@, "letsencrypt"@, 0);
            }
            assert(key_before("letsencrypt"@, "minimumtls"@)) by {
                reveal_strlit("letsencrypt");
                reveal_strlit("minimumtls");
                lemma_ascii_before("letsencrypt"@, "minimumtls"@, 0);
            }
            lemma_ascend_by_neighbours(entries);
        }
        assert forall|i: int| 0 <= i < entries.len() implies orderly(
            (#[trigger] entries[i]).1,
        ) by {
            String::lemma_encode_orderly(m.certificate);
            String::lemma_encode_orderly(m.key);
            Vec::<String>::lemma_encode_orderly(m.client_cas);
            String::lemma_encode_orderly(m.minimum_tls);
            LetsEncrypt::lemma_encode_orderly(m.lets_encrypt);
        }
    }

    fn default_value() -> (r: Tls) {
        Tls {
            certificate: String::default_value(),
            key: String::default_value(),
            client_cas: Vec::<String>::default_value(),
            minimum_tls: String::default_value(),
            lets_encrypt: LetsEncrypt::default_value(),
        }
    }

    fn from_node(node: &Node) -> (r: Result<Tls, ConfigError>) {
        match node {
            Node::Null => Ok(Self::default_value()),
            Node::Dict(entries) => {
                proof {
                    lemma_dict_tree(*entries);
                }
                let certificate = read_field::<String>(entries, "certificate")?;
                let key = read_field::<String>(entries, "key")?;
                let client_cas = read_field::<Vec<String>>(entries, "clientcas")?;
                let minimum_tls = read_field::<String>(entries, "minimumtls")?;
                let lets_encrypt = read_field::<LetsEncrypt>(entries, "letsencrypt")?;
                Ok(Tls { certificate, key, client_cas, minimum_tls, lets_encrypt })
            },
            _ => Err(ConfigError::TypeMismatch(Expected::Dict)),
        }
    }

    fn to_node(&self) -> (node: Node) {
        let mut entries: Vec<(Node, Node)> = Vec::new();
        entries.push(entry("certificate", self.certificate.to_node()));
        entries.push(entry("clientcas", self.client_cas.to_node()));
        entries.push(entry("key", self.key.to_node()));
        entries.push(entry("letsencrypt", self.lets_encrypt.to_node()));
        entries.push(entry("minimumtls", self.minimum_tls.to_node()));
        proof {
            lemma_dict_tree(entries);
            assert(tree_pairs(entries@) =~= Self::encode(self.model())->Dict_0);
        }
        Node::Dict(entries)
    }
}

impl Lenient for Tls {
    proof fn lemma_null_is_default() {
    }
}

/// The metrics endpoint.
#[derive(Debug, PartialEq)]
pub struct Prometheus {
    /// Whether metrics are served.
    pub enabled: bool,
    /// The path they are served under.
    pub path: String,
}

/// `Prometheus` as a mathematical value.
pub struct PrometheusModel {
    pub enabled: bool,
    pub path: Seq<char>,
}

impl Codec for Prometheus {
    type Model = PrometheusModel;

    open spec fn model(&self) -> PrometheusModel {
        PrometheusModel {
            enabled: self.enabled.model(),
            path: self.path.model(),
        }
    }

    open spec fn valid(m: PrometheusModel) -> bool {
        &&& bool::valid(m.enabled)
        &&& String::valid(m.path)
    }

    open spec fn default_model() -> PrometheusModel {
        PrometheusModel {
            enabled: bool::default_model(),
            path: String::default_model(),
        }
    }

    /// An explicit null reads as the default. A mapping is read field by
    /// field: a field whose key is missing takes its default, keys that
    /// name no field are passed over, and the first field in the order below
    /// that cannot be read decides the error. Anything else is no section.
    open spec fn decode(tree: Tree) -> Result<PrometheusModel, Fault> {
        match tree {
            Tree::Null => Ok(Self::default_model()),
            Tree::Dict(entries) => {
                let enabled = decode_field::<bool>(entries, "enabled"@);
                let path = decode_field::<String>(entries, "path"@);
                if enabled is Err {
                    Err(enabled->Err_0)
                } else if path is Err {
                    Err(path->Err_0)
                } else {
                    Ok(
                        PrometheusModel {
                            enabled: enabled->Ok_0,
                            path: path->Ok_0,
                        },
                    )
                }
            },
            _ => Err(Fault::TypeMismatch(Expected::Dict)),
        }
    }

    /// A mapping with one entry for every field, in ascending key order.
    open spec fn encode(m: PrometheusModel) -> Tree {
        Tree::Dict(
            seq![
                (Tree::Text("enabled"@), bool::encode(m.enabled)),
                (Tree::Text("path"@), String::encode(m.path)),
            ],
        )
    }

    proof fn lemma_default_valid() {
        bool::lemma_default_valid();
        String::lemma_default_valid();
    }

    proof fn lemma_decode_valid(tree: Tree) {
        if let Tree::Dict(entries) = tree {
            lemma_field_valid::<bool>(entries, "enabled"@);
            lemma_field_valid::<String>(entries, "path"@);
        } else {
            Self::lemma_default_valid();
        }
    }

    proof fn lemma_round_trip(m: PrometheusModel) {
        let entries = Self::encode(m)->Dict_0;
        assert(decode_field::<bool>(entries, "enabled"@) == Ok::<bool, Fault>(m.enabled)) by {
            reveal_strlit("enabled");
            reveal_with_fuel(find_from, 2);
            bool::lemma_round_trip(m.enabled);
        }
        assert(decode_field::<String>(entries, "path"@) == Ok::<Seq<char>, Fault>(m.path)) by {
            reveal_strlit("enabled");
            reveal_strlit("path");
            assert("path"@.len() == 4);
            assert("enabled"@.len() == 7);
            reveal_with_fuel(find_from, 3);
            String::lemma_round_trip(m.path);
        }
    }

    proof fn lemma_encode_orderly(m: PrometheusModel) {
        let entries = Self::encode(m)->Dict_0;
        assert(text_keys_ascend(entries)) by {
            assert(key_before("enabled"@, "path"@)) by {
                reveal_strlit("enabled");
                reveal_strlit("path");
                lemma_ascii_before("enabled"@, "path"@, 0);
            }
            lemma_ascend_by_neighbours(entries);
        }
        assert forall|i: int| 0 <= i < entries.len() implies orderly(
            (#[trigger] entries[i]).1,
        ) by {
            bool::lemma_encode_orderly(m.enabled);
            String::lemma_encode_orderly(m.path);
        }
    }

    fn default_value() -> (r: Prometheus) {
        Prometheus {
            enabled: bool::default_value(),
            path: String::default_value(),
        }
    }

    fn from_node(node: &Node) -> (r: Result<Prometheus, ConfigError>) {
        match node {
            Node::Null => Ok(Self::default_value()),
            Node::Dict(entries) => {
                proof {
                    lemma_dict_tree(*entries);
                }
                let enabled = read_field::<bool>(entries, "enabled")?;
                let path = read_field::<String>(entries, "path")?;
                Ok(Prometheus { enabled, path })
            },
            _ => Err(ConfigError::TypeMismatch(Expected::Dict)),
        }
    }

    fn to_node(&self) -> (node: Node) {
        let mut entries: Vec<(Node, Node)> = Vec::new();
        entries.push(entry("enabled", self.enabled.to_node()));
        entries.push(entry("path", self.path.to_node()));
        proof {
            lemma_dict_tree(entries);
            assert(tree_pairs(entries@) =~= Self::encode(self.model())->Dict_0);
        }
        Node::Dict(entries)
    }
}

impl Lenient for Prometheus {
    proof fn lemma_null_is_default() {
    }
}

/// The debug server.
#[derive(Debug, PartialEq)]
pub struct Debug {
    /// Address the debug server listens on.
    pub addr: String,
    /// The metrics endpoint.
    pub prometheus: Prometheus,
}

/// `Debug` as a mathematical value.
pub struct DebugModel {
    pub addr: Seq<char>,
    pub prometheus: PrometheusModel,
}

impl Codec for Debug {
    type Model = DebugModel;

    open spec fn model(&self) -> DebugModel {
        DebugModel {
            addr: self.addr.model(),
            prometheus: self.prometheus.model(),
        }
    }

    open spec fn valid(m: DebugModel) -> bool {
        &&& String::valid(m.addr)
        &&& Prometheus::valid(m.prometheus)
    }

    open spec fn default_model() -> DebugModel {
        DebugModel {
            addr: String::default_model(),
            prometheus: Prometheus::default_model(),
        }
    }

    /// An explicit null reads as the default. A mapping is read field by
    /// field: a field whose key is missing takes its default, keys that
    /// name no field are passed over, and the first field in the order below
    /// that cannot be read decides the error. Anything else is no section.
    open spec fn decode(tree: Tree) -> Result<DebugModel, Fault> {
        match tree {
            Tree::Null => Ok(Self::default_model()),
            Tree::Dict(entries) => {
                let addr = decode_field::<String>(entries, "addr"@);
                let prometheus = decode_field::<Prometheus>(entries, "prometheus"@);
                if addr is Err {
                    Err(addr->Err_0)
                } else if prometheus is Err {
                    Err(prometheus->Err_0)
                } else {
                    Ok(
                        DebugModel {
                            addr: addr->Ok_0,
                            prometheus: prometheus->Ok_0,
                        },
                    )
                }
            },
            _ => Err(Fault::TypeMismatch(Expected::Dict)),
        }
    }

    /// A mapping with one entry for every field, in ascending key order.
    open spec fn encode(m: DebugModel) -> Tree {
        Tree::Dict(
            seq![
                (Tree::Text("addr"@), String::encode(m.addr)),
                (Tree::Text("prometheus"@), Prometheus::encode(m.prometheus)),
            ],
        )
    }

    proof fn lemma_default_valid() {
        String::lemma_default_valid();
        Prometheus::lemma_default_valid();
    }

    proof fn lemma_decode_valid(tree: Tree) {
        if let Tree::Dict(entries) = tree {
            lemma_field_valid::<String>(entries, "addr"@);
            lemma_field_valid::<Prometheus>(entries, "prometheus"@);
        } else {
            Self::lemma_default_valid();
        }
    }

    proof fn lemma_round_trip(m: DebugModel) {
        let entries = Self::encode(m)->Dict_0;
        assert(decode_field::<String>(entries, "addr"@) == Ok::<Seq<char>, Fault>(m.addr)) by {
            reveal_strlit("addr");
            reveal_with_fuel(find_from, 2);
            String::lemma_round_trip(m.addr);
        }
        assert(decode_field::<Prometheus>(
            entries,
            "prometheus"@,
        ) == Ok::<PrometheusModel, Fault>(m.prometheus)) by {
            reveal_strlit("addr");
            reveal_strlit("prometheus");
            assert("addr"@.len() == 4);
            assert("prometheus"@.len() == 10);
            reveal_with_fuel(find_from, 3);
            Prometheus::lemma_round_trip(m.prometheus);
        }
    }

    proof fn lemma_encode_orderly(m: DebugModel) {
        let entries = Self::encode(m)->Dict_0;
        assert(text_keys_ascend(entries)) by {
            assert(key_before("addr"@, "prometheus"@)) by {
                reveal_strlit("addr");
                reveal_strlit("prometheus");
                lemma_ascii_before("addr"@, "prometheus"@, 0);
            }
            lemma_ascend_by_neighbours(entries);
        }
        assert forall|i: int| 0 <= i < entries.len() implies orderly(
            (#[trigger] entries[i]).1,
        ) by {
            String::lemma_encode_orderly(m.addr);
            Prometheus::lemma_encode_orderly(m.prometheus);
        }
    }

    fn default_value() -> (r: Debug) {
        Debug {
            addr: String::default_value(),
            prometheus: Prometheus::default_value(),
        }
    }

    fn from_node(node: &Node) -> (r: Result<Debug, ConfigError>) {
        match node {
            Node::Null => Ok(Self::default_value()),
            Node::Dict(entries) => {
                proof {
                    lemma_dict_tree(*entries);
                }
                let addr = read_field::<String>(entries, "addr")?;
                let prometheus = read_field::<Prometheus>(entries, "prometheus")?;
                Ok(Debug { addr, prometheus })
            },
            _ => Err(ConfigError::TypeMismatch(Expected::Dict)),
        }
    }

    fn to_node(&self) -> (node: Node) {
        let mut entries: Vec<(Node, Node)> = Vec::new();
        entries.push(entry("addr", self.addr.to_node()));
        entries.push(entry("prometheus", self.prometheus.to_node()));
        proof {
            lemma_dict_tree(entries);
            assert(tree_pairs(entries@) =~= Self::encode(self.model())->Dict_0);
        }
        Node::Dict(entries)
    }
}

impl Lenient for Debug {
    proof fn lemma_null_is_default() {
    }
}

/// HTTP/2 settings.
#[derive(Debug, PartialEq)]
pub struct Http2 {
    /// Whether HTTP/2 is switched off.
    pub disabled: bool,
}

/// `Http2` as a mathematical value.
pub struct Http2Model {
    pub disabled: bool,
}

impl Codec for Http2 {
    type Model = Http2Model;

    open spec fn model(&self) -> Http2Model {
        Http2Model {
            disabled: self.disabled.model(),
        }
    }

    open spec fn valid(m: Http2Model) -> bool {
        &&& bool::valid(m.disabled)
    }

    open spec fn default_model() -> Http2Model {
        Http2Model {
            disabled: bool::default_model(),
        }
    }

    /// An explicit null reads as the default. A mapping is read field by
    /// field: a field whose key is missing takes its default, keys that
    /// name no field are passed over, and the first field in the order below
    /// that cannot be read decides the error. Anything else is no section.
    open spec fn decode(tree: Tree) -> Result<Http2Model, Fault> {
        match tree {
            Tree::Null => Ok(Self::default_model()),
            Tree::Dict(entries) => {
                let disabled = decode_field::<bool>(entries, "disabled"@);
                if disabled is Err {
                    Err(disabled->Err_0)
                } else {
                    Ok(
                        Http2Model {
                            disabled: disabled->Ok_0,
                        },
                    )
                }
            },
            _ => Err(Fault::TypeMismatch(Expected::Dict)),
        }
    }

    /// A mapping with one entry for every field, in ascending key order.
    open spec fn encode(m: Http2Model) -> Tree {
        Tree::Dict(
            seq![
                (Tree::Text("disabled"@), bool::encode(m.disabled)),
            ],
        )
    }

    proof fn lemma_default_valid() {
        bool::lemma_default_valid();
    }

    proof fn lemma_decode_valid(tree: Tree) {
        if let Tree::Dict(entries) = tree {
            lemma_field_valid::<bool>(entries, "disabled"@);
        } else {
            Self::lemma_default_valid();
        }
    }

    proof fn lemma_round_trip(m: Http2Model) {
        let entries = Self::encode(m)->Dict_0;
        assert(decode_field::<bool>(entries, "disabled"@) == Ok::<bool, Fault>(m.disabled)) by {
            reveal_strlit("disabled");
            reveal_with_fuel(find_from, 2);
            bool::lemma_round_trip(m.disabled);
        }
    }

    proof fn lemma_encode_orderly(m: Http2Model) {
        let entries = Self::encode(m)->Dict_0;
        assert(text_keys_ascend(entries)) by {
            lemma_ascend_by_neighbours(entries);
        }
        assert forall|i: int| 0 <= i < entries.len() implies orderly(
            (#[trigger] entries[i]).1,
        ) by {
            bool::lemma_encode_orderly(m.disabled);
        }
    }

    fn default_value() -> (r: Http2) {
        Http2 {
            disabled: bool::default_value(),
        }
    }

    fn from_node(node: &Node) -> (r: Result<Http2, ConfigError>) {
        match node {
            Node::Null => Ok(Self::default_value()),
            Node::Dict(entries) => {
                proof {
                    lemma_dict_tree(*entries);
                }
                let disabled = read_field::<bool>(entries, "disabled")?;
                Ok(Http2 { disabled })
            },
            _ => Err(ConfigError::TypeMismatch(Expected::Dict)),
        }
    }

    fn to_node(&self) -> (node: Node) {
        let mut entries: Vec<(Node, Node)> = Vec::new();
        entries.push(entry("disabled", self.disabled.to_node()));
        proof {
            lemma_dict_tree(entries);
            assert(tree_pairs(entries@) =~= Self::encode(self.model())->Dict_0);
        }
        Node::Dict(entries)
    }
}

impl Lenient for Http2 {
    proof fn lemma_null_is_default() {
    }
}

/// Settings of the HTTP listener.
#[derive(Debug, PartialEq)]
pub struct Http {
    /// Address to listen on.
    pub addr: String,
    /// Kind of socket to listen on.
    pub net: String,
    /// Externally reachable address of the registry.
    pub host: String,
    /// Path prefix of the registry.
    pub prefix: String,
    /// Secret that signs state handed to clients.
    pub secret: String,
    /// Whether relative URLs are returned.
    pub relative_urls: bool,
    /// How long connections may drain at shutdown.
    pub drain_timeout: Duration,
    /// TLS settings.
    pub tls: Tls,
    /// Headers added to every response.
    pub headers: Header,
    /// The debug server.
    pub debug: Debug,
    /// HTTP/2 settings.
    pub http2: Http2,
}

/// `Http` as a mathematical value.
pub struct HttpModel {
    pub addr: Seq<char>,
    pub net: Seq<char>,
    pub host: Seq<char>,
    pub prefix: Seq<char>,
    pub secret: Seq<char>,
    pub relative_urls: bool,
    pub drain_timeout: Duration,
    pub tls: TlsModel,
    pub headers: Seq<(Seq<char>, Seq<Seq<char>>)>,
    pub debug: DebugModel,
    pub http2: Http2Model,
}

impl Codec for Http {
    type Model = HttpModel;

    open spec fn model(&self) -> HttpModel {
        HttpModel {
            addr: self.addr.model(),
            net: self.net.model(),
            host: self.host.model(),
            prefix: self.prefix.model(),
            secret: self.secret.model(),
            relative_urls: self.relative_urls.model(),
            drain_timeout: self.drain_timeout.model(),
            tls: self.tls.model(),
            headers: self.headers.model(),
            debug: self.debug.model(),
            http2: self.http2.model(),
        }
    }

    open spec fn valid(m: HttpModel) -> bool {
        &&& String::valid(m.addr)
        &&& String::valid(m.net)
        &&& String::valid(m.host)
        &&& String::valid(m.prefix)
        &&& String::valid(m.secret)
        &&& bool::valid(m.relative_urls)
        &&& Duration::valid(m.drain_timeout)
        &&& Tls::valid(m.tls)
        &&& Table::<Vec<String>>::valid(m.headers)
        &&& Debug::valid(m.debug)
        &&& Http2::valid(m.http2)
    }

    open spec fn default_model() -> HttpModel {
        HttpModel {
            addr: String::default_model(),
            net: String::default_model(),
            host: String::default_model(),
            prefix: String::default_model(),
            secret: String::default_model(),
            relative_urls: bool::default_model(),
            drain_timeout: Duration::default_model(),
            tls: Tls::default_model(),
            headers: Table::<Vec<String>>::default_model(),
            debug: Debug::default_model(),
            http2: Http2::default_model(),
        }
    }

    /// An explicit null reads as the default. A mapping is read field by
    /// field: a field whose key is missing takes its default, keys that
    /// name no field are passed over, and the first field in the order below
    /// that cannot be read decides the error. Anything else is no section.
    open spec fn decode(tree: Tree) -> Result<HttpModel, Fault> {
        match tree {
            Tree::Null => Ok(Self::default_model()),
            Tree::Dict(entries) => {
                let addr = decode_field::<String>(entries, "addr"@);
                let net = decode_field::<String>(entries, "net"@);
                let host = decode_field::<String>(entries, "host"@);
                let prefix = decode_field::<String>(entries, "prefix"@);
                let secret = decode_field::<String>(entries, "secret"@);
                let relative_urls = decode_field::<bool>(entries, "relativeurls"@);
                let drain_timeout = decode_field::<Duration>(entries, "draintimeout"@);
                let tls = decode_field::<Tls>(entries, "tls"@);
                let headers = decode_field::<Table<Vec<String>>>(entries, "headers"@);
                let debug = decode_field::<Debug>(entries, "debug"@);
                let http2 = decode_field::<Http2>(entries, "http2"@);
                if addr is Err {
                    Err(addr->Err_0)
                } else if net is Err {
                    Err(net->Err_0)
                } else if host is Err {
                    Err(host->Err_0)
                } else if prefix is Err {
                    Err(prefix->Err_0)
                } else if secret is Err {
                    Err(secret->Err_0)
                } else if relative_urls is Err {
                    Err(relative_urls->Err_0)
                } else if drain_timeout is Err {
                    Err(drain_timeout->Err_0)
                } else if tls is Err {
                    Err(tls->Err_0)
                } else if headers is Err {
                    Err(headers->Err_0)
                } else if debug is Err {
                    Err(debug->Err_0)
                } else if http2 is Err {
                    Err(http2->Err_0)
                } else {
                    Ok(
                        HttpModel {
                            addr: addr->Ok_0,
                            net: net->Ok_0,
                            host: host->Ok_0,
                            prefix: prefix->Ok_0,
                            secret: secret->Ok_0,
                            relative_urls: relative_urls->Ok_0,
                            drain_timeout: drain_timeout->Ok_0,
                            tls: tls->Ok_0,
                            headers: headers->Ok_0,
                            debug: debug->Ok_0,
                            http2: http2->Ok_0,
                        },
                    )
                }
            },
            _ => Err(Fault::TypeMismatch(Expected::Dict)),
        }
    }

    /// A mapping with one entry for every field, in ascending key order.
    open spec fn encode(m: HttpModel) -> Tree {
        Tree::Dict(
            seq![
                (Tree::Text("addr"@), String::encode(m.addr)),
                (Tree::Text("debug"@), Debug::encode(m.debug)),
                (Tree::Text("draintimeout"@), Duration::encode(m.drain_timeout)),
                (Tree::Text("headers"@), Table::<Vec<String>>::encode(m.headers)),
                (Tree::Text("host"@), String::encode(m.host)),
                (Tree::Text("http2"@), Http2::encode(m.http2)),
                (Tree::Text("net"@), String::encode(m.net)),
                (Tree::Text("prefix"@), String::encode(m.prefix)),
                (Tree::Text("relativeurls"@), bool::encode(m.relative_urls)),
                (Tree::Text("secret"@), String::encode(m.secret)),
                (Tree::Text("tls"@), Tls::encode(m.tls)),
            ],
        )
    }

    proof fn lemma_default_valid() {
        String::lemma_default_valid();
        bool::lemma_default_valid();
        Duration::lemma_default_valid();
        Tls::lemma_default_valid();
        Table::<Vec<String>>::lemma_default_valid();
        Debug::lemma_default_valid();
        Http2::lemma_default_valid();
    }

    proof fn lemma_decode_valid(tree: Tree) {
        if let Tree::Dict(entries) = tree {
            lemma_field_valid::<String>(entries, "addr"@);
            lemma_field_valid::<String>(entries, "net"@);
            lemma_field_valid::<String>(entries, "host"@);
            lemma_field_valid::<String>(entries, "prefix"@);
            lemma_field_valid::<String>(entries, "secret"@);
            lemma_field_valid::<bool>(entries, "relativeurls"@);
            lemma_field_valid::<Duration>(entries, "draintimeout"@);
            lemma_field_valid::<Tls>(entries, "tls"@);
            lemma_field_valid::<Table<Vec<String>>>(entries, "headers"@);
            lemma_field_valid::<Debug>(entries, "debug"@);
            lemma_field_valid::<Http2>(entries, "http2"@);
        } else {
            Self::lemma_default_valid();
        }
    }

    proof fn lemma_round_trip(m: HttpModel) {
        lemma_http_fields_1(m);
        lemma_http_fields_2(m);
        lemma_http_fields_3(m);
    }

    proof fn lemma_encode_orderly(m: HttpModel) {
        let entries = Self::encode(m)->Dict_0;
        assert(text_keys_ascend(entries)) by {
            assert(key_before("addr"@, "debug"@)) by {
                reveal_strlit("addr");
                reveal_strlit("debug");
                lemma_ascii_before("addr"@, "debug"@, 0);
            }
            assert(key_before("debug"@, "draintimeout"@)) by {
                reveal_strlit("debug");
                reveal_strlit("draintimeout");
                lemma_ascii_before("debug"@, "draintimeout"@, 1);
            }
            assert(key_before("draintimeout"@, "headers"@)) by {
                reveal_strlit("draintimeout");
                reveal_strlit("headers");
                lemma_ascii_before("draintimeout"@, "headers"@, 0);
            }
            assert(key_before("headers"@, "host"@)) by {
                reveal_strlit("headers");
                reveal_strlit("host");
                lemma_ascii_before("headers"@, "host"@, 1);
            }
            assert(key_before("host"@, "http2"@)) by {
                reveal_strlit("host");
                reveal_strlit("http2");
                lemma_ascii_before("host"@, "http2"@, 1);
            }
            assert(key_before("http2"@, "net"@)) by {
                reveal_strlit("http2");
                reveal_strlit("net");
                lemma_ascii_before("http2"@, "net"@, 0);
            }
            assert(key_before("net"@, "prefix"@)) by {
                reveal_strlit("net");
                reveal_strlit("prefix");
                lemma_ascii_before("net"@, "prefix"@, 0);
            }
            assert(key_before("prefix"@, "relativeurls"@)) by {
                reveal_strlit("prefix");
                reveal_strlit("relativeurls");
                lemma_ascii_before("prefix"@, "relativeurls"@, 0);
            }
            assert(key_before("relativeurls"@, "secret"@)) by {
                reveal_strlit("relativeurls");
                reveal_strlit("secret");
                lemma_ascii_before("relativeurls"@, "secret"@, 0);
            }
            assert(key_before("secret"@, "tls"@)) by {
                reveal_strlit("secret");
                reveal_strlit("tls");
                lemma_ascii_before("secret"@, "tls"@, 0);
            }
            lemma_ascend_by_neighbours(entries);
        }
        assert forall|i: int| 0 <= i < entries.len() implies orderly(
            (#[trigger] entries[i]).1,
        ) by {
            String::lemma_encode_orderly(m.addr);
            String::lemma_encode_orderly(m.net);
            String::lemma_encode_orderly(m.host);
            String::lemma_encode_orderly(m.prefix);
            String::lemma_encode_orderly(m.secret);
            bool::lemma_encode_orderly(m.relative_urls);
            Duration::lemma_encode_orderly(m.drain_timeout);
            Tls::lemma_encode_orderly(m.tls);
            Table::<Vec<String>>::lemma_encode_orderly(m.headers);
            Debug::lemma_encode_orderly(m.debug);
            Http2::lemma_encode_orderly(m.http2);
        }
    }

    fn default_value() -> (r: Http) {
        Http {
            addr: String::default_value(),
            net: String::default_value(),
            host: String::default_value(),
            prefix: String::default_value(),
            secret: String::default_value(),
            relative_urls: bool::default_value(),
            drain_timeout: Duration::default_value(),
            tls: Tls::default_value(),
            headers: Table::<Vec<String>>::default_value(),
            debug: Debug::default_value(),
            http2: Http2::default_value(),
        }
    }

    fn from_node(node: &Node) -> (r: Result<Http, ConfigError>) {
        match node {
            Node::Null => Ok(Self::default_value()),
            Node::Dict(entries) => {
                proof {
                    lemma_dict_tree(*entries);
                }
                let addr = read_field::<String>(entries, "addr")?;
                let net = read_field::<String>(entries, "net")?;
                let host = read_field::<String>(entries, "host")?;
                let prefix = read_field::<String>(entries, "prefix")?;
                let secret = read_field::<String>(entries, "secret")?;
                let relative_urls = read_field::<bool>(entries, "relativeurls")?;
                let drain_timeout = read_field::<Duration>(entries, "draintimeout")?;
                let tls = read_field::<Tls>(entries, "tls")?;
                let headers = read_field::<Table<Vec<String>>>(entries, "headers")?;
                let debug = read_field::<Debug>(entries, "debug")?;
                let http2 = read_field::<Http2>(entries, "http2")?;
                Ok(
                    Http {
                        addr,
                        net,
                        host,
                        prefix,
                        secret,
                        relative_urls,
                        drain_timeout,
                        tls,
                        headers,
                        debug,
                        http2,
                    },
                )
            },
            _ => Err(ConfigError::TypeMismatch(Expected::Dict)),
        }
    }

    fn to_node(&self) -> (node: Node) {
        let mut entries: Vec<(Node, Node)> = Vec::new();
        entries.push(entry("addr", self.addr.to_node()));
        entries.push(entry("debug", self.debug.to_node()));
        entries.push(entry("draintimeout", self.drain_timeout.to_node()));
        entries.push(entry("headers", self.headers.to_node()));
        entries.push(entry("host", self.host.to_node()));
        entries.push(entry("http2", self.http2.to_node()));
        entries.push(entry("net", self.net.to_node()));
        entries.push(entry("prefix", self.prefix.to_node()));
        entries.push(entry("relativeurls", self.relative_urls.to_node()));
        entries.push(entry("secret", self.secret.to_node()));
        entries.push(entry("tls", self.tls.to_node()));
        proof {
            lemma_dict_tree(entries);
            assert(tree_pairs(entries@) =~= Self::encode(self.model())->Dict_0);
        }
        Node::Dict(entries)
    }
}

impl Lenient for Http {
    proof fn lemma_null_is_default() {
    }
}

/// What a valid `Http` is written as under the keys from `addr` to `host`
/// reads back as the fields it was written from.
proof fn lemma_http_fields_1(m: HttpModel)
    requires
        Http::valid(m),
    ensures
        decode_field::<String>(Http::encode(m)->Dict_0, "addr"@) == Ok::<Seq<char>, Fault>(m.addr),
        decode_field::<Debug>(
            Http::encode(m)->Dict_0,
            "debug"@,
        ) == Ok::<DebugModel, Fault>(m.debug),
        decode_field::<Duration>(
            Http::encode(m)->Dict_0,
            "draintimeout"@,
        ) == Ok::<Duration, Fault>(m.drain_timeout),
        decode_field::<Table<Vec<String>>>(
            Http::encode(m)->Dict_0,
            "headers"@,
        ) == Ok::<Seq<(Seq<char>, Seq<Seq<char>>)>, Fault>(m.headers),
        decode_field::<String>(Http::encode(m)->Dict_0, "host"@) == Ok::<Seq<char>, Fault>(m.host),
{
    let entries = Http::encode(m)->Dict_0;
    assert(decode_field::<String>(entries, "addr"@) == Ok::<Seq<char>, Fault>(m.addr)) by {
        reveal_strlit("addr");
        reveal_with_fuel(find_from, 2);
        String::lemma_round_trip(m.addr);
    }
    assert(decode_field::<Debug>(entries, "debug"@) == Ok::<DebugModel, Fault>(m.debug)) by {
        reveal_strlit("addr");
        reveal_strlit("debug");
        assert("addr"@.len() == 4);
        assert("debug"@.len() == 5);
        reveal_with_fuel(find_from, 3);
        Debug::lemma_round_trip(m.debug);
    }
    assert(decode_field::<Duration>(
        entries,
        "draintimeout"@,
    ) == Ok::<Duration, Fault>(m.drain_timeout)) by {
        reveal_strlit("addr");
        reveal_strlit("debug");
        reveal_strlit("draintimeout");
        assert("addr"@.len() == 4);
        assert("debug"@.len() == 5);
        assert("draintimeout"@.len() == 12);
        reveal_with_fuel(find_from, 4);
        Duration::lemma_round_trip(m.drain_timeout);
    }
    assert(decode_field::<Table<Vec<String>>>(
        entries,
        "headers"@,
    ) == Ok::<Seq<(Seq<char>, Seq<Seq<char>>)>, Fault>(m.headers)) by {
        reveal_strlit("addr");
        reveal_strlit("debug");
        reveal_strlit("draintimeout");
        reveal_strlit("headers");
        assert("addr"@.len() == 4);
        assert("debug"@.len() == 5);
        assert("headers"@.len() == 7);
        assert("draintimeout"@.len() == 12);
        reveal_with_fuel(find_from, 5);
        Table::<Vec<String>>::lemma_round_trip(m.headers);
    }
    assert(decode_field::<String>(entries, "host"@) == Ok::<Seq<char>, Fault>(m.host)) by {
        reveal_strlit("addr");
        reveal_strlit("debug");
        reveal_strlit("draintimeout");
        reveal_strlit("headers");
        reveal_strlit("host");
        assert("addr"@[0] == 'a');
        assert("addr"@.len() == 4);
        assert("host"@[0] == 'h');
        assert("host"@.len() == 4);
        assert("debug"@.len() == 5);
        assert("headers"@.len() == 7);
        assert("draintimeout"@.len() == 12);
        reveal_with_fuel(find_from, 6);
        String::lemma_round_trip(m.host);
    }
}

/// What a valid `Http` is written as under the keys from `http2` to `secret`
/// reads back as the fields it was written from.
proof fn lemma_http_fields_2(m: HttpModel)
    requires
        Http::valid(m),
    ensures
        decode_field::<Http2>(
            Http::encode(m)->Dict_0,
            "http2"@,
        ) == Ok::<Http2Model, Fault>(m.http2),
        decode_field::<String>(Http::encode(m)->Dict_0, "net"@) == Ok::<Seq<char>, Fault>(m.net),
        decode_field::<String>(
            Http::encode(m)->Dict_0,
            "prefix"@,
        ) == Ok::<Seq<char>, Fault>(m.prefix),
        decode_field::<bool>(
            Http::encode(m)->Dict_0,
            "relativeurls"@,
        ) == Ok::<bool, Fault>(m.relative_urls),
        decode_field::<String>(
            Http::encode(m)->Dict_0,
            "secret"@,
        ) == Ok::<Seq<char>, Fault>(m.secret),
{
    let entries = Http::encode(m)->Dict_0;
    assert(decode_field::<Http2>(entries, "http2"@) == Ok::<Http2Model, Fault>(m.http2)) by {
        reveal_strlit("addr");
        reveal_strlit("debug");
        reveal_strlit("draintimeout");
        reveal_strlit("headers");
        reveal_strlit("host");
        reveal_strlit("http2");
        assert("addr"@[0] == 'a');
        assert("addr"@.len() == 4);
        assert("host"@[0] == 'h');
        assert("host"@.len() == 4);
        assert("debug"@[0] == 'd');
        assert("debug"@.len() == 5);
        assert("http2"@[0] == 'h');
        assert("http2"@.len() == 5);
        assert("headers"@.len() == 7);
        assert("draintimeout"@.len() == 12);
        reveal_with_fuel(find_from, 7);
        Http2::lemma_round_trip(m.http2);
    }
    assert(decode_field::<String>(entries, "net"@) == Ok::<Seq<char>, Fault>(m.net)) by {
        reveal_strlit("addr");
        reveal_strlit("debug");
        reveal_strlit("draintimeout");
        reveal_strlit("headers");
        reveal_strlit("host");
        reveal_strlit("http2");
        reveal_strlit("net");
        assert("net"@.len() == 3);
        assert("addr"@[0] == 'a');
        assert("addr"@.len() == 4);
        assert("host"@[0] == 'h');
        assert("host"@.len() == 4);
        assert("debug"@[0] == 'd');
        assert("debug"@.len() == 5);
        assert("http2"@[0] == 'h');
        assert("http2"@.len() == 5);
        assert("headers"@.len() == 7);
        assert("draintimeout"@.len() == 12);
        reveal_with_fuel(find_from, 8);
        String::lemma_round_trip(m.net);
    }
    assert(decode_field::<String>(entries, "prefix"@) == Ok::<Seq<char>, Fault>(m.prefix)) by {
        reveal_strlit("addr");
        reveal_strlit("debug");
        reveal_strlit("draintimeout");
        reveal_strlit("headers");
        reveal_strlit("host");
        reveal_strlit("http2");
        reveal_strlit("net");
        reveal_strlit("prefix");
        assert("net"@.len() == 3);
        assert("addr"@[0] == 'a');
        assert("addr"@.len() == 4);
        assert("host"@[0] == 'h');
        assert("host"@.len() == 4);
        assert("debug"@[0] == 'd');
        assert("debug"@.len() == 5);
        assert("http2"@[0] == 'h');
        assert("http2"@.len() == 5);
        assert("prefix"@.len() == 6);
        assert("headers"@.len() == 7);
        assert("draintimeout"@.len() == 12);
        reveal_with_fuel(find_from, 9);
        String::lemma_round_trip(m.prefix);
    }
    assert(decode_field::<bool>(
        entries,
        "relativeurls"@,
    ) == Ok::<bool, Fault>(m.relative_urls)) by {
        reveal_strlit("addr");
        reveal_strlit("debug");
        reveal_strlit("draintimeout");
        reveal_strlit("headers");
        reveal_strlit("host");
        reveal_strlit("http2");
        reveal_strlit("net");
        reveal_strlit("prefix");
        reveal_strlit("relativeurls");
        assert("net"@.len() == 3);
        assert("addr"@[0] == 'a');
        assert("addr"@.len() == 4);
        assert("host"@[0] == 'h');
        assert("host"@.len() == 4);
        assert("debug"@[0] == 'd');
        assert("debug"@.len() == 5);
        assert("http2"@[0] == 'h');
        assert("http2"@.len() == 5);
        assert("prefix"@.len() == 6);
        assert("headers"@.len() == 7);
        assert("draintimeout"@[0] == 'd');
        assert("draintimeout"@.len() == 12);
        assert("relativeurls"@[0] == 'r');
        assert("relativeurls"@.len() == 12);
        reveal_with_fuel(find_from, 10);
        bool::lemma_round_trip(m.relative_urls);
    }
    assert(decode_field::<String>(entries, "secret"@) == Ok::<Seq<char>, Fault>(m.secret)) by {
        reveal_strlit("addr");
        reveal_strlit("debug");
        reveal_strlit("draintimeout");
        reveal_strlit("headers");
        reveal_strlit("host");
        reveal_strlit("http2");
        reveal_strlit("net");
        reveal_strlit("prefix");
        reveal_strlit("relativeurls");
        reveal_strlit("secret");
        assert("net"@.len() == 3);
        assert("addr"@[0] == 'a');
        assert("addr"@.len() == 4);
        assert("host"@[0] == 'h');
        assert("host"@.len() == 4);
        assert("debug"@[0] == 'd');
        assert("debug"@.len() == 5);
        assert("http2"@[0] == 'h');
        assert("http2"@.len() == 5);
        assert("prefix"@[0] == 'p');
        assert("prefix"@.len() == 6);
        assert("secret"@[0] == 's');
        assert("secret"@.len() == 6);
        assert("headers"@.len() == 7);
        assert("draintimeout"@[0] == 'd');
        assert("draintimeout"@.len() == 12);
        assert("relativeurls"@[0] == 'r');
        assert("relativeurls"@.len() == 12);
        reveal_with_fuel(find_from, 11);
        String::lemma_round_trip(m.secret);
    }
}

/// What a valid `Http` is written as under the keys from `tls` to `tls`
/// reads back as the fields it was written from.
proof fn lemma_http_fields_3(m: HttpModel)
    requires
        Http::valid(m),
    ensures
        decode_field::<Tls>(Http::encode(m)->Dict_0, "tls"@) == Ok::<TlsModel, Fault>(m.tls),
{
    let entries = Http::encode(m)->Dict_0;
    assert(decode_field::<Tls>(entries, "tls"@) == Ok::<TlsModel, Fault>(m.tls)) by {
        reveal_strlit("addr");
        reveal_strlit("debug");
        reveal_strlit("draintimeout");
        reveal_strlit("headers");
        reveal_strlit("host");
        reveal_strlit("http2");
        reveal_strlit("net");
        reveal_strlit("prefix");
        reveal_strlit("relativeurls");
        reveal_strlit("secret");
        reveal_strlit("tls");
        assert("net"@[0] == 'n');
        assert("net"@.len() == 3);
        assert("tls"@[0] == 't');
        assert("tls"@.len() == 3);
        assert("addr"@[0] == 'a');
        assert("addr"@.len() == 4);
        assert("host"@[0] == 'h');
        assert("host"@.len() == 4);
        assert("debug"@[0] == 'd');
        assert("debug"@.len() == 5);
        assert("http2"@[0] == 'h');
        assert("http2"@.len() == 5);
        assert("prefix"@[0] == 'p');
        assert("prefix"@.len() == 6);
        assert("secret"@[0] == 's');
        assert("secret"@.len() == 6);
        assert("headers"@.len() == 7);
        assert("draintimeout"@[0] == 'd');
        assert("draintimeout"@.len() == 12);
        assert("relativeurls"@[0] == 'r');
        assert("relativeurls"@.len() == 12);
        reveal_with_fuel(find_from, 12);
        Tls::lemma_round_trip(m.tls);
    }
}

} // verus!
