//! Middleware of the registry.

use crate::codec::{decode_field, entry, find_from, lemma_field_valid, read_field, Codec, Lenient};
use crate::error::{ConfigError, Expected, Fault};
use crate::parameter::{ParameterModel, Parameters};
use crate::text::{key_before, lemma_ascii_before};
use crate::tree::{
    lemma_ascend_by_neighbours, lemma_dict_tree, orderly, text_keys_ascend, tree_pairs, Node, Tree,
};
use vstd::prelude::*;

verus! {

/// One middleware.
#[derive(Debug, PartialEq)]
pub struct Middleware {
    /// Name of the middleware.
    pub name: String,
    /// Whether it is switched off.
    pub disable: bool,
    /// Options handed to it.
    pub options: Parameters,
}

/// `Middleware` as a mathematical value.
pub struct MiddlewareModel {
    pub name: Seq<char>,
    pub disable: bool,
    pub options: Seq<(Seq<char>, ParameterModel)>,
}

impl Codec for Middleware {
    type Model = MiddlewareModel;

    open spec fn model(&self) -> MiddlewareModel {
        MiddlewareModel {
            name: self.name.model(),
            disable: self.disable.model(),
            options: self.options.model(),
        }
    }

    open spec fn valid(m: MiddlewareModel) -> bool {
        &&& String::valid(m.name)
        &&& bool::valid(m.disable)
        &&& Parameters::valid(m.options)
    }

    open spec fn default_model() -> MiddlewareModel {
        MiddlewareModel {
            name: String::default_model(),
            disable: bool::default_model(),
            options: Parameters::default_model(),
        }
    }

    /// An explicit null reads as the default. A mapping is read field by
    /// field: a field whose key is missing takes its default, keys that
    /// name no field are passed over, and the first field in the order below
    /// that cannot be read decides the error. Anything else is no section.
    open spec fn decode(tree: Tree) -> Result<MiddlewareModel, Fault> {
        match tree {
            Tree::Null => Ok(Self::default_model()),
            Tree::Dict(entries) => {
                let name = decode_field::<String>(entries, "name"@);
                let disable = decode_field::<bool>(entries, "disable"@);
                let options = decode_field::<Parameters>(entries, "options"@);
                if name is Err {
                    Err(name->Err_0)
                } else if disable is Err {
                    Err(disable->Err_0)
                } else if options is Err {
                    Err(options->Err_0)
                } else {
                    Ok(
                        MiddlewareModel {
                            name: name->Ok_0,
                            disable: disable->Ok_0,
                            options: options->Ok_0,
                        },
                    )
                }
            },
            _ => Err(Fault::TypeMismatch(Expected::Dict)),
        }
    }

    /// A mapping with one entry for every field, in ascending key order.
    open spec fn encode(m: MiddlewareModel) -> Tree {
        Tree::Dict(
            seq![
                (Tree::Text("disable"@), bool::encode(m.disable)),
                (Tree::Text("name"@), String::encode(m.name)),
                (Tree::Text("options"@), Parameters::encode(m.options)),
            ],
        )
    }

    proof fn lemma_default_valid() {
        String::lemma_default_valid();
        bool::lemma_default_valid();
        Parameters::lemma_default_valid();
    }

    proof fn lemma_decode_valid(tree: Tree) {
        if let Tree::Dict(entries) = tree {
            lemma_field_valid::<String>(entries, "name"@);
            lemma_field_valid::<bool>(entries, "disable"@);
            lemma_field_valid::<Parameters>(entries, "options"@);
        } else {
            Self::lemma_default_valid();
        }
    }

    proof fn lemma_round_trip(m: MiddlewareModel) {
        let entries = Self::encode(m)->Dict_0;
        assert(decode_field::<bool>(entries, "disable"@) == Ok::<bool, Fault>(m.disable)) by {
            reveal_strlit("disable");
            reveal_with_fuel(find_from, 2);
            bool::lemma_round_trip(m.disable);
        }
        assert(decode_field::<String>(entries, "name"@) == Ok::<Seq<char>, Fault>(m.name)) by {
            reveal_strlit("disable");
            reveal_strlit("name");
            assert("name"@.len() == 4);
            assert("disable"@.len() == 7);
            reveal_with_fuel(find_from, 3);
            String::lemma_round_trip(m.name);
        }
        assert(decode_field::<Parameters>(
            entries,
            "options"@,
        ) == Ok::<Seq<(Seq<char>, ParameterModel)>, Fault>(m.options)) by {
            reveal_strlit("disable");
            reveal_strlit("name");
            reveal_strlit("options");
            assert("name"@.len() == 4);
            assert("disable"@[0] == 'd');
            assert("disable"@.len() == 7);
            assert("options"@[0] == 'o');
            assert("options"@.len() == 7);
            reveal_with_fuel(find_from, 4);
            Parameters::lemma_round_trip(m.options);
        }
    }

    proof fn lemma_encode_orderly(m: MiddlewareModel) {
        let entries = Self::encode(m)->Dict_0;
        assert(text_keys_ascend(entries)) by {
            assert(key_before("disable"@, "name"@)) by {
                reveal_strlit("disable");
                reveal_strlit("name");
                lemma_ascii_before("disable"@, "name"@, 0);
            }
            assert(key_before("name"@, "options"@)) by {
                reveal_strlit("name");
                reveal_strlit("options");
                lemma_ascii_before("name"@, "options"@, 0);
            }
            lemma_ascend_by_neighbours(entries);
        }
        assert forall|i: int| 0 <= i < entries.len() implies orderly(
            (#[trigger] entries[i]).1,
        ) by {
            String::lemma_encode_orderly(m.name);
            bool::lemma_encode_orderly(m.disable);
            Parameters::lemma_encode_orderly(m.options);
        }
    }

    fn default_value() -> (r: Middleware) {
        Middleware {
            name: String::default_value(),
            disable: bool::default_value(),
            options: Parameters::default_value(),
        }
    }

    fn from_node(node: &Node) -> (r: Result<Middleware, ConfigError>) {
        match node {
            Node::Null => Ok(Self::default_value()),
            Node::Dict(entries) => {
                proof {
                    lemma_dict_tree(*entries);
                }
                let name = read_field::<String>(entries, "name")?;
                let disable = read_field::<bool>(entries, "disable")?;
                let options = read_field::<Parameters>(entries, "options")?;
                Ok(Middleware { name, disable, options })
            },
            _ => Err(ConfigError::TypeMismatch(Expected::Dict)),
        }
    }

    fn to_node(&self) -> (node: Node) {
        let mut entries: Vec<(Node, Node)> = Vec::new();
        entries.push(entry("disable", self.disable.to_node()));
        entries.push(entry("name", self.name.to_node()));
        entries.push(entry("options", self.options.to_node()));
        proof {
            lemma_dict_tree(entries);
            assert(tree_pairs(entries@) =~= Self::encode(self.model())->Dict_0);
        }
        Node::Dict(entries)
    }
}

impl Lenient for Middleware {
    proof fn lemma_null_is_default() {
    }
}

} // verus!
