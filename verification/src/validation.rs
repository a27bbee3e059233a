//! Validation of what is pushed.

use crate::codec::{decode_field, entry, find_from, lemma_field_valid, read_field, Codec, Lenient};
use crate::error::{ConfigError, Expected, Fault};
use crate::text::{key_before, lemma_ascii_before};
use crate::tree::{
    lemma_ascend_by_neighbours, lemma_dict_tree, orderly, text_keys_ascend, tree_pairs, Node, Tree,
};
use vstd::prelude::*;

verus! {

/// Validation of the URLs in pushed manifests.
#[derive(Debug, PartialEq)]
pub struct Urls {
    /// Patterns that a URL must match.
    pub allow: Vec<String>,
    /// Patterns that a URL must not match.
    pub deny: Vec<String>,
}

/// `Urls` as a mathematical value.
pub struct UrlsModel {
    pub allow: Seq<Seq<char>>,
    pub deny: Seq<Seq<char>>,
}

impl Codec for Urls {
    type Model = UrlsModel;

    open spec fn model(&self) -> UrlsModel {
        UrlsModel {
            allow: self.allow.model(),
            deny: self.deny.model(),
        }
    }

    open spec fn valid(m: UrlsModel) -> bool {
        &&& Vec::<String>::valid(m.allow)
        &&& Vec::<String>::valid(m.deny)
    }

    open spec fn default_model() -> UrlsModel {
        UrlsModel {
            allow: Vec::<String>::default_model(),
            deny: Vec::<String>::default_model(),
        }
    }

    /// An explicit null reads as the default. A mapping is read field by
    /// field: a field whose key is missing takes its default, keys that
    /// name no field are passed over, and the first field in the order below
    /// that cannot be read decides the error. Anything else is no section.
    open spec fn decode(tree: Tree) -> Result<UrlsModel, Fault> {
        match tree {
            Tree::Null => Ok(Self::default_model()),
            Tree::Dict(entries) => {
                let allow = decode_field::<Vec<String>>(entries, "allow"@);
                let deny = decode_field::<Vec<String>>(entries, "deny"@);
                if allow is Err {
                    Err(allow->Err_0)
                } else if deny is Err {
                    Err(deny->Err_0)
                } else {
                    Ok(
                        UrlsModel {
                            allow: allow->Ok_0,
                            deny: deny->Ok_0,
                        },
                    )
                }
            },
            _ => Err(Fault::TypeMismatch(Expected::Dict)),
        }
    }

    /// A mapping with one entry for every field, in ascending key order.
    open spec fn encode(m: UrlsModel) -> Tree {
        Tree::Dict(
            seq![
                (Tree::Text("allow"@), Vec::<String>::encode(m.allow)),
                (Tree::Text("deny"@), Vec::<String>::encode(m.deny)),
            ],
        )
    }

    proof fn lemma_default_valid() {
        Vec::<String>::lemma_default_valid();
    }

    proof fn lemma_decode_valid(tree: Tree) {
        if let Tree::Dict(entries) = tree {
            lemma_field_valid::<Vec<String>>(entries, "allow"@);
            lemma_field_valid::<Vec<String>>(entries, "deny"@);
        } else {
            Self::lemma_default_valid();
        }
    }

    proof fn lemma_round_trip(m: UrlsModel) {
        let entries = Self::encode(m)->Dict_0;
        assert(decode_field::<Vec<String>>(
            entries,
            "allow"@,
        ) == Ok::<Seq<Seq<char>>, Fault>(m.allow)) by {
            reveal_strlit("allow");
            reveal_with_fuel(find_from, 2);
            Vec::<String>::lemma_round_trip(m.allow);
        }
        assert(decode_field::<Vec<String>>(
            entries,
            "deny"@,
        ) == Ok::<Seq<Seq<char>>, Fault>(m.deny)) by {
            reveal_strlit("allow");
            reveal_strlit("deny");
            assert("deny"@.len() == 4);
            assert("allow"@.len() == 5);
            reveal_with_fuel(find_from, 3);
            Vec::<String>::lemma_round_trip(m.deny);
        }
    }

    proof fn lemma_encode_orderly(m: UrlsModel) {
        let entries = Self::encode(m)->Dict_0;
        assert(text_keys_ascend(entries)) by {
            assert(key_before("allow"@, "deny"@)) by {
                reveal_strlit("allow");
                reveal_strlit("deny");
                lemma_ascii_before("allow"@, "deny"@, 0);
            }
            lemma_ascend_by_neighbours(entries);
        }
        assert forall|i: int| 0 <= i < entries.len() implies orderly(
            (#[trigger] entries[i]).1,
        ) by {
            Vec::<String>::lemma_encode_orderly(m.allow);
            Vec::<String>::lemma_encode_orderly(m.deny);
        }
    }

    fn default_value() -> (r: Urls) {
        Urls {
            allow: Vec::<String>::default_value(),
            deny: Vec::<String>::default_value(),
        }
    }

    fn from_node(node: &Node) -> (r: Result<Urls, ConfigError>) {
        match node {
            Node::Null => Ok(Self::default_value()),
            Node::Dict(entries) => {
                proof {
                    lemma_dict_tree(*entries);
                }
                let allow = read_field::<Vec<String>>(entries, "allow")?;
                let deny = read_field::<Vec<String>>(entries, "deny")?;
                Ok(Urls { allow, deny })
            },
            _ => Err(ConfigError::TypeMismatch(Expected::Dict)),
        }
    }

    fn to_node(&self) -> (node: Node) {
        let mut entries: Vec<(Node, Node)> = Vec::new();
        entries.push(entry("allow", self.allow.to_node()));
        entries.push(entry("deny", self.deny.to_node()));
        proof {
            lemma_dict_tree(entries);
            assert(tree_pairs(entries@) =~= Self::encode(self.model())->Dict_0);
        }
        Node::Dict(entries)
    }
}

impl Lenient for Urls {
    proof fn lemma_null_is_default() {
    }
}

/// Validation of manifests.
#[derive(Debug, PartialEq)]
pub struct Manifest {
    /// Validation of the URLs in them.
    pub urls: Urls,
}

/// `Manifest` as a mathematical value.
pub struct ManifestModel {
    pub urls: UrlsModel,
}

impl Codec for Manifest {
    type Model = ManifestModel;

    open spec fn model(&self) -> ManifestModel {
        ManifestModel {
            urls: self.urls.model(),
        }
    }

    open spec fn valid(m: ManifestModel) -> bool {
        &&& Urls::valid(m.urls)
    }

    open spec fn default_model() -> ManifestModel {
        ManifestModel {
            urls: Urls::default_model(),
        }
    }

    /// An explicit null reads as the default. A mapping is read field by
    /// field: a field whose key is missing takes its default, keys that
    /// name no field are passed over, and the first field in the order below
    /// that cannot be read decides the error. Anything else is no section.
    open spec fn decode(tree: Tree) -> Result<ManifestModel, Fault> {
        match tree {
            Tree::Null => Ok(Self::default_model()),
            Tree::Dict(entries) => {
                let urls = decode_field::<Urls>(entries, "urls"@);
                if urls is Err {
                    Err(urls->Err_0)
                } else {
                    Ok(
                        ManifestModel {
                            urls: urls->Ok_0,
                        },
                    )
                }
            },
            _ => Err(Fault::TypeMismatch(Expected::Dict)),
        }
    }

    /// A mapping with one entry for every field, in ascending key order.
    open spec fn encode(m: ManifestModel) -> Tree {
        Tree::Dict(
            seq![
                (Tree::Text("urls"@), Urls::encode(m.urls)),
            ],
        )
    }

    proof fn lemma_default_valid() {
        Urls::lemma_default_valid();
    }

    proof fn lemma_decode_valid(tree: Tree) {
        if let Tree::Dict(entries) = tree {
            lemma_field_valid::<Urls>(entries, "urls"@);
        } else {
            Self::lemma_default_valid();
        }
    }

    proof fn lemma_round_trip(m: ManifestModel) {
        let entries = Self::encode(m)->Dict_0;
        assert(decode_field::<Urls>(entries, "urls"@) == Ok::<UrlsModel, Fault>(m.urls)) by {
            reveal_strlit("urls");
            reveal_with_fuel(find_from, 2);
            Urls::lemma_round_trip(m.urls);
        }
    }

    proof fn lemma_encode_orderly(m: ManifestModel) {
        let entries = Self::encode(m)->Dict_0;
        assert(text_keys_ascend(entries)) by {
            lemma_ascend_by_neighbours(entries);
        }
        assert forall|i: int| 0 <= i < entries.len() implies orderly(
            (#[trigger] entries[i]).1,
        ) by {
            Urls::lemma_encode_orderly(m.urls);
        }
    }

    fn default_value() -> (r: Manifest) {
        Manifest {
            urls: Urls::default_value(),
        }
    }

    fn from_node(node: &Node) -> (r: Result<Manifest, ConfigError>) {
        match node {
            Node::Null => Ok(Self::default_value()),
            Node::Dict(entries) => {
                proof {
                    lemma_dict_tree(*entries);
                }
                let urls = read_field::<Urls>(entries, "urls")?;
                Ok(Manifest { urls })
            },
            _ => Err(ConfigError::TypeMismatch(Expected::Dict)),
        }
    }

    fn to_node(&self) -> (node: Node) {
        let mut entries: Vec<(Node, Node)> = Vec::new();
        entries.push(entry("urls", self.urls.to_node()));
        proof {
            lemma_dict_tree(entries);
            assert(tree_pairs(entries@) =~= Self::encode(self.model())->Dict_0);
        }
        Node::Dict(entries)
    }
}

impl Lenient for Manifest {
    proof fn lemma_null_is_default() {
    }
}

/// The validation section.
#[derive(Debug, PartialEq)]
pub struct Validation {
    /// Switches the section on. Superseded by `disabled`.
    pub enabled: bool,
    /// Switches the section off. Read from the key `signingkeyfile`.
    pub disabled: bool,
    /// Validation of manifests.
    pub manifests: Manifest,
}

/// `Validation` as a mathematical value.
pub struct ValidationModel {
    pub enabled: bool,
    pub disabled: bool,
    pub manifests: ManifestModel,
}

impl Codec for Validation {
    type Model = ValidationModel;

    open spec fn model(&self) -> ValidationModel {
        ValidationModel {
            enabled: self.enabled.model(),
            disabled: self.disabled.model(),
            manifests: self.manifests.model(),
        }
    }

    open spec fn valid(m: ValidationModel) -> bool {
        &&& bool::valid(m.enabled)
        &&& bool::valid(m.disabled)
        &&& Manifest::valid(m.manifests)
    }

    open spec fn default_model() -> ValidationModel {
        ValidationModel {
            enabled: bool::default_model(),
            disabled: bool::default_model(),
            manifests: Manifest::default_model(),
        }
    }

    /// An explicit null reads as the default. A mapping is read field by
    /// field: a field whose key is missing takes its default, keys that
    /// name no field are passed over, and the first field in the order below
    /// that cannot be read decides the error. Anything else is no section.
    open spec fn decode(tree: Tree) -> Result<ValidationModel, Fault> {
        match tree {
            Tree::Null => Ok(Self::default_model()),
            Tree::Dict(entries) => {
                let enabled = decode_field::<bool>(entries, "enabled"@);
                let disabled = decode_field::<bool>(entries, "signingkeyfile"@);
                let manifests = decode_field::<Manifest>(entries, "manifests"@);
                if enabled is Err {
                    Err(enabled->Err_0)
                } else if disabled is Err {
                    Err(disabled->Err_0)
                } else if manifests is Err {
                    Err(manifests->Err_0)
                } else {
                    Ok(
                        ValidationModel {
                            enabled: enabled->Ok_0,
                            disabled: disabled->Ok_0,
                            manifests: manifests->Ok_0,
                        },
                    )
                }
            },
            _ => Err(Fault::TypeMismatch(Expected::Dict)),
        }
    }

    /// A mapping with one entry for every field, in ascending key order.
    open spec fn encode(m: ValidationModel) -> Tree {
        Tree::Dict(
            seq![
                (Tree::Text("enabled"@), bool::encode(m.enabled)),
                (Tree::Text("manifests"@), Manifest::encode(m.manifests)),
                (Tree::Text("signingkeyfile"@), bool::encode(m.disabled)),
            ],
        )
    }

    proof fn lemma_default_valid() {
        bool::lemma_default_valid();
        Manifest::lemma_default_valid();
    }

    proof fn lemma_decode_valid(tree: Tree) {
        if let Tree::Dict(entries) = tree {
            lemma_field_valid::<bool>(entries, "enabled"@);
            lemma_field_valid::<bool>(entries, "signingkeyfile"@);
            lemma_field_valid::<Manifest>(entries, "manifests"@);
        } else {
            Self::lemma_default_valid();
        }
    }

    proof fn lemma_round_trip(m: ValidationModel) {
        let entries = Self::encode(m)->Dict_0;
        assert(decode_field::<bool>(entries, "enabled"@) == Ok::<bool, Fault>(m.enabled)) by {
            reveal_strlit("enabled");
            reveal_with_fuel(find_from, 2);
            bool::lemma_round_trip(m.enabled);
        }
        assert(decode_field::<Manifest>(
            entries,
            "manifests"@,
        ) == Ok::<ManifestModel, Fault>(m.manifests)) by {
            reveal_strlit("enabled");
            reveal_strlit("manifests");
            assert("enabled"@.len() == 7);
            assert("manifests"@.len() == 9);
            reveal_with_fuel(find_from, 3);
            Manifest::lemma_round_trip(m.manifests);
        }
        assert(decode_field::<bool>(
            entries,
            "signingkeyfile"@,
        ) == Ok::<bool, Fault>(m.disabled)) by {
            reveal_strlit("enabled");
            reveal_strlit("manifests");
            reveal_strlit("signingkeyfile");
            assert("enabled"@.len() == 7);
            assert("manifests"@.len() == 9);
            assert("signingkeyfile"@.len() == 14);
            reveal_with_fuel(find_from, 4);
            bool::lemma_round_trip(m.disabled);
        }
    }

    proof fn lemma_encode_orderly(m: ValidationModel) {
        let entries = Self::encode(m)->Dict_0;
        assert(text_keys_ascend(entries)) by {
            assert(key_before("enabled"@, "manifests"@)) by {
                reveal_strlit("enabled");
                reveal_strlit("manifests");
                lemma_ascii_before("enabled"@, "manifests"@, 0);
            }
            assert(key_before("manifests"@, "signingkeyfile"@)) by {
                reveal_strlit("manifests");
                reveal_strlit("signingkeyfile");
                lemma_ascii_before("manifests"@, "signingkeyfile"@, 0);
            }
            lemma_ascend_by_neighbours(entries);
        }
        assert forall|i: int| 0 <= i < entries.len() implies orderly(
            (#[trigger] entries[i]).1,
        ) by {
            bool::lemma_encode_orderly(m.enabled);
            bool::lemma_encode_orderly(m.disabled);
            Manifest::lemma_encode_orderly(m.manifests);
        }
    }

    fn default_value() -> (r: Validation) {
        Validation {
            enabled: bool::default_value(),
            disabled: bool::default_value(),
            manifests: Manifest::default_value(),
        }
    }

    fn from_node(node: &Node) -> (r: Result<Validation, ConfigError>) {
        match node {
            Node::Null => Ok(Self::default_value()),
            Node::Dict(entries) => {
                proof {
                    lemma_dict_tree(*entries);
                }
                let enabled = read_field::<bool>(entries, "enabled")?;
                let disabled = read_field::<bool>(entries, "signingkeyfile")?;
                let manifests = read_field::<Manifest>(entries, "manifests")?;
                Ok(Validation { enabled, disabled, manifests })
            },
            _ => Err(ConfigError::TypeMismatch(Expected::Dict)),
        }
    }

    fn to_node(&self) -> (node: Node) {
        let mut entries: Vec<(Node, Node)> = Vec::new();
        entries.push(entry("enabled", self.enabled.to_node()));
        entries.push(entry("manifests", self.manifests.to_node()));
        entries.push(entry("signingkeyfile", self.disabled.to_node()));
        proof {
            lemma_dict_tree(entries);
            assert(tree_pairs(entries@) =~= Self::encode(self.model())->Dict_0);
        }
        Node::Dict(entries)
    }
}

impl Lenient for Validation {
    proof fn lemma_null_is_default() {
    }
}

} // verus!
