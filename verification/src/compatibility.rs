//! Support of older and deprecated features.

use crate::codec::{decode_field, entry, find_from, lemma_field_valid, read_field, Codec, Lenient};
use crate::error::{ConfigError, Expected, Fault};
use crate::text::{key_before, lemma_ascii_before};
use crate::tree::{
    lemma_ascend_by_neighbours, lemma_dict_tree, orderly, text_keys_ascend, tree_pairs, Node, Tree,
};
use vstd::prelude::*;

verus! {

/// How schema1 manifests are handled.
#[derive(Debug, PartialEq)]
pub struct Schema1 {
    /// The key that signs schema1 manifests.
    pub trust_key: String,
    /// Whether schema1 manifests can be pulled.
    pub enabled: bool,
}

/// `Schema1` as a mathematical value.
pub struct Schema1Model {
    pub trust_key: Seq<char>,
    pub enabled: bool,
}

impl Codec for Schema1 {
    type Model = Schema1Model;

    open spec fn model(&self) -> Schema1Model {
        Schema1Model {
            trust_key: self.trust_key.model(),
            enabled: self.enabled.model(),
        }
    }

    open spec fn valid(m: Schema1Model) -> bool {
        &&& String::valid(m.trust_key)
        &&& bool::valid(m.enabled)
    }

    open spec fn default_model() -> Schema1Model {
        Schema1Model {
            trust_key: String::default_model(),
            enabled: bool::default_model(),
        }
    }

    /// An explicit null reads as the default. A mapping is read field by
    /// field: a field whose key is missing takes its default, keys that
    /// name no field are passed over, and the first field in the order below
    /// that cannot be read decides the error. Anything else is no section.
    open spec fn decode(tree: Tree) -> Result<Schema1Model, Fault> {
        match tree {
            Tree::Null => Ok(Self::default_model()),
            Tree::Dict(entries) => {
                let trust_key = decode_field::<String>(entries, "signingkeyfile"@);
                let enabled = decode_field::<bool>(entries, "enabled"@);
                if trust_key is Err {
                    Err(trust_key->Err_0)
                } else if enabled is Err {
                    Err(enabled->Err_0)
                } else {
                    Ok(
                        Schema1Model {
                            trust_key: trust_key->Ok_0,
                            enabled: enabled->Ok_0,
                        },
                    )
                }
            },
            _ => Err(Fault::TypeMismatch(Expected::Dict)),
        }
    }

    /// A mapping with one entry for every field, in ascending key order.
    open spec fn encode(m: Schema1Model) -> Tree {
        Tree::Dict(
            seq![
                (Tree::Text("enabled"@), bool::encode(m.enabled)),
                (Tree::Text("signingkeyfile"@), String::encode(m.trust_key)),
            ],
        )
    }

    proof fn lemma_default_valid() {
        String::lemma_default_valid();
        bool::lemma_default_valid();
    }

    proof fn lemma_decode_valid(tree: Tree) {
        if let Tree::Dict(entries) = tree {
            lemma_field_valid::<String>(entries, "signingkeyfile"@);
            lemma_field_valid::<bool>(entries, "enabled"@);
        } else {
            Self::lemma_default_valid();
        }
    }

    proof fn lemma_round_trip(m: Schema1Model) {
        let entries = Self::encode(m)->Dict_0;
        assert(decode_field::<bool>(entries, "enabled"@) == Ok::<bool, Fault>(m.enabled)) by {
            reveal_strlit("enabled");
            reveal_with_fuel(find_from, 2);
            bool::lemma_round_trip(m.enabled);
        }
        assert(decode_field::<String>(
            entries,
            "signingkeyfile"@,
        ) == Ok::<Seq<char>, Fault>(m.trust_key)) by {
            reveal_strlit("enabled");
            reveal_strlit("signingkeyfile");
            assert("enabled"@.len() == 7);
            assert("signingkeyfile"@.len() == 14);
            reveal_with_fuel(find_from, 3);
            String::lemma_round_trip(m.trust_key);
        }
    }

    proof fn lemma_encode_orderly(m: Schema1Model) {
        let entries = Self::encode(m)->Dict_0;
        assert(text_keys_ascend(entries)) by {
            assert(key_before("enabled"@, "signingkeyfile"@)) by {
                reveal_strlit("enabled");
                reveal_strlit("signingkeyfile");
                lemma_ascii_before("enabled"@, "signingkeyfile"@, 0);
            }
            lemma_ascend_by_neighbours(entries);
        }
        assert forall|i: int| 0 <= i < entries.len() implies orderly(
            (#[trigger] entries[i]).1,
        ) by {
            String::lemma_encode_orderly(m.trust_key);
            bool::lemma_encode_orderly(m.enabled);
        }
    }

    fn default_value() -> (r: Schema1) {
        Schema1 {
            trust_key: String::default_value(),
            enabled: bool::default_value(),
        }
    }

    fn from_node(node: &Node) -> (r: Result<Schema1, ConfigError>) {
        match node {
            Node::Null => Ok(Self::default_value()),
            Node::Dict(entries) => {
                proof {
                    lemma_dict_tree(*entries);
                }
                let trust_key = read_field::<String>(entries, "signingkeyfile")?;
                let enabled = read_field::<bool>(entries, "enabled")?;
                Ok(Schema1 { trust_key, enabled })
            },
            _ => Err(ConfigError::TypeMismatch(Expected::Dict)),
        }
    }

    fn to_node(&self) -> (node: Node) {
        let mut entries: Vec<(Node, Node)> = Vec::new();
        entries.push(entry("enabled", self.enabled.to_node()));
        entries.push(entry("signingkeyfile", self.trust_key.to_node()));
        proof {
            lemma_dict_tree(entries);
            assert(tree_pairs(entries@) =~= Self::encode(self.model())->Dict_0);
        }
        Node::Dict(entries)
    }
}

impl Lenient for Schema1 {
    proof fn lemma_null_is_default() {
    }
}

/// The compatibility section.
#[derive(Debug, PartialEq)]
pub struct Compatibility {
    /// How schema1 manifests are handled.
    pub schema1: Schema1,
}

/// `Compatibility` as a mathematical value.
pub struct CompatibilityModel {
    pub schema1: Schema1Model,
}

impl Codec for Compatibility {
    type Model = CompatibilityModel;

    open spec fn model(&self) -> CompatibilityModel {
        CompatibilityModel {
            schema1: self.schema1.model(),
        }
    }

    open spec fn valid(m: CompatibilityModel) -> bool {
        &&& Schema1::valid(m.schema1)
    }

    open spec fn default_model() -> CompatibilityModel {
        CompatibilityModel {
            schema1: Schema1::default_model(),
        }
    }

    /// An explicit null reads as the default. A mapping is read field by
    /// field: a field whose key is missing takes its default, keys that
    /// name no field are passed over, and the first field in the order below
    /// that cannot be read decides the error. Anything else is no section.
    open spec fn decode(tree: Tree) -> Result<CompatibilityModel, Fault> {
        match tree {
            Tree::Null => Ok(Self::default_model()),
            Tree::Dict(entries) => {
                let schema1 = decode_field::<Schema1>(entries, "schema1"@);
                if schema1 is Err {
                    Err(schema1->Err_0)
                } else {
                    Ok(
                        CompatibilityModel {
                            schema1: schema1->Ok_0,
                        },
                    )
                }
            },
            _ => Err(Fault::TypeMismatch(Expected::Dict)),
        }
    }

    /// A mapping with one entry for every field, in ascending key order.
    open spec fn encode(m: CompatibilityModel) -> Tree {
        Tree::Dict(
            seq![
                (Tree::Text("schema1"@), Schema1::encode(m.schema1)),
            ],
        )
    }

    proof fn lemma_default_valid() {
        Schema1::lemma_default_valid();
    }

    proof fn lemma_decode_valid(tree: Tree) {
        if let Tree::Dict(entries) = tree {
            lemma_field_valid::<Schema1>(entries, "schema1"@);
        } else {
            Self::lemma_default_valid();
        }
    }

    proof fn lemma_round_trip(m: CompatibilityModel) {
        let entries = Self::encode(m)->Dict_0;
        assert(decode_field::<Schema1>(
            entries,
            "schema1"@,
        ) == Ok::<Schema1Model, Fault>(m.schema1)) by {
            reveal_strlit("schema1");
            reveal_with_fuel(find_from, 2);
            Schema1::lemma_round_trip(m.schema1);
        }
    }

    proof fn lemma_encode_orderly(m: CompatibilityModel) {
        let entries = Self::encode(m)->Dict_0;
        assert(text_keys_ascend(entries)) by {
            lemma_ascend_by_neighbours(entries);
        }
        assert forall|i: int| 0 <= i < entries.len() implies orderly(
            (#[trigger] entries[i]).1,
        ) by {
            Schema1::lemma_encode_orderly(m.schema1);
        }
    }

    fn default_value() -> (r: Compatibility) {
        Compatibility {
            schema1: Schema1::default_value(),
        }
    }

    fn from_node(node: &Node) -> (r: Result<Compatibility, ConfigError>) {
        match node {
            Node::Null => Ok(Self::default_value()),
            Node::Dict(entries) => {
                proof {
                    lemma_dict_tree(*entries);
                }
                let schema1 = read_field::<Schema1>(entries, "schema1")?;
                Ok(Compatibility { schema1 })
            },
            _ => Err(ConfigError::TypeMismatch(Expected::Dict)),
        }
    }

    fn to_node(&self) -> (node: Node) {
        let mut entries: Vec<(Node, Node)> = Vec::new();
        entries.push(entry("schema1", self.schema1.to_node()));
        proof {
            lemma_dict_tree(entries);
            assert(tree_pairs(entries@) =~= Self::encode(self.model())->Dict_0);
        }
        Node::Dict(entries)
    }
}

impl Lenient for Compatibility {
    proof fn lemma_null_is_default() {
    }
}

} // verus!
