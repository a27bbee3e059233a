//! The registry as a pull-through cache.

use crate::codec::{decode_field, entry, find_from, lemma_field_valid, read_field, Codec, Lenient};
use crate::error::{ConfigError, Expected, Fault};
use crate::text::{key_before, lemma_ascii_before};
use crate::tree::{
    lemma_ascend_by_neighbours, lemma_dict_tree, orderly, text_keys_ascend, tree_pairs, Node, Tree,
};
use vstd::prelude::*;

verus! {

/// The registry that is cached.
#[derive(Debug, PartialEq)]
pub struct Proxy {
    /// URL of the remote registry.
    pub remote_url: String,
    /// User to log in as.
    pub username: String,
    /// Password of that user.
    pub password: String,
}

/// `Proxy` as a mathematical value.
pub struct ProxyModel {
    pub remote_url: Seq<char>,
    pub username: Seq<char>,
    pub password: Seq<char>,
}

impl Codec for Proxy {
    type Model = ProxyModel;

    open spec fn model(&self) -> ProxyModel {
        ProxyModel {
            remote_url: self.remote_url.model(),
            username: self.username.model(),
            password: self.password.model(),
        }
    }

    open spec fn valid(m: ProxyModel) -> bool {
        &&& String::valid(m.remote_url)
        &&& String::valid(m.username)
        &&& String::valid(m.password)
    }

    open spec fn default_model() -> ProxyModel {
        ProxyModel {
            remote_url: String::default_model(),
            username: String::default_model(),
            password: String::default_model(),
        }
    }

    /// An explicit null reads as the default. A mapping is read field by
    /// field: a field whose key is missing takes its default, keys that
    /// name no field are passed over, and the first field in the order below
    /// that cannot be read decides the error. Anything else is no section.
    open spec fn decode(tree: Tree) -> Result<ProxyModel, Fault> {
        match tree {
            Tree::Null => Ok(Self::default_model()),
            Tree::Dict(entries) => {
                let remote_url = decode_field::<String>(entries, "remoteurl"@);
                let username = decode_field::<String>(entries, "username"@);
                let password = decode_field::<String>(entries, "password"@);
                if remote_url is Err {
                    Err(remote_url->Err_0)
                } else if username is Err {
                    Err(username->Err_0)
                } else if password is Err {
                    Err(password->Err_0)
                } else {
                    Ok(
                        ProxyModel {
                            remote_url: remote_url->Ok_0,
                            username: username->Ok_0,
                            password: password->Ok_0,
                        },
                    )
                }
            },
            _ => Err(Fault::TypeMismatch(Expected::Dict)),
        }
    }

    /// A mapping with one entry for every field, in ascending key order.
    open spec fn encode(m: ProxyModel) -> Tree {
        Tree::Dict(
            seq![
                (Tree::Text("password"@), String::encode(m.password)),
                (Tree::Text("remoteurl"@), String::encode(m.remote_url)),
                (Tree::Text("username"@), String::encode(m.username)),
            ],
        )
    }

    proof fn lemma_default_valid() {
        String::lemma_default_valid();
    }

    proof fn lemma_decode_valid(tree: Tree) {
        if let Tree::Dict(entries) = tree {
            lemma_field_valid::<String>(entries, "remoteurl"@);
            lemma_field_valid::<String>(entries, "username"@);
            lemma_field_valid::<String>(entries, "password"@);
        } else {
            Self::lemma_default_valid();
        }
    }

    proof fn lemma_round_trip(m: ProxyModel) {
        let entries = Self::encode(m)->Dict_0;
        assert(decode_field::<String>(
            entries,
            "password"@,
        ) == Ok::<Seq<char>, Fault>(m.password)) by {
            reveal_strlit("password");
            reveal_with_fuel(find_from, 2);
            String::lemma_round_trip(m.password);
        }
        assert(decode_field::<String>(
            entries,
            "remoteurl"@,
        ) == Ok::<Seq<char>, Fault>(m.remote_url)) by {
            reveal_strlit("password");
            reveal_strlit("remoteurl");
            assert("password"@.len() == 8);
            assert("remoteurl"@.len() == 9);
            reveal_with_fuel(find_from, 3);
            String::lemma_round_trip(m.remote_url);
        }
        assert(decode_field::<String>(
            entries,
            "username"@,
        ) == Ok::<Seq<char>, Fault>(m.username)) by {
            reveal_strlit("password");
            reveal_strlit("remoteurl");
            reveal_strlit("username");
            assert("password"@[0] == 'p');
            assert("password"@.len() == 8);
            assert("username"@[0] == 'u');
            assert("username"@.len() == 8);
            assert("remoteurl"@.len() == 9);
            reveal_with_fuel(find_from, 4);
            String::lemma_round_trip(m.username);
        }
    }

    proof fn lemma_encode_orderly(m: ProxyModel) {
        let entries = Self::encode(m)->Dict_0;
        assert(text_keys_ascend(entries)) by {
            assert(key_before("password"@, "remoteurl"@)) by {
                reveal_strlit("password");
                reveal_strlit("remoteurl");
                lemma_ascii_before("password"@, "remoteurl"@, 0);
            }
            assert(key_before("remoteurl"@, "username"@)) by {
                reveal_strlit("remoteurl");
                reveal_strlit("username");
                lemma_ascii_before("remoteurl"@, "username"@, 0);
            }
            lemma_ascend_by_neighbours(entries);
        }
        assert forall|i: int| 0 <= i < entries.len() implies orderly(
            (#[trigger] entries[i]).1,
        ) by {
            String::lemma_encode_orderly(m.remote_url);
            String::lemma_encode_orderly(m.username);
            String::lemma_encode_orderly(m.password);
        }
    }

    fn default_value() -> (r: Proxy) {
        Proxy {
            remote_url: String::default_value(),
            username: String::default_value(),
            password: String::default_value(),
        }
    }

    fn from_node(node: &Node) -> (r: Result<Proxy, ConfigError>) {
        match node {
            Node::Null => Ok(Self::default_value()),
            Node::Dict(entries) => {
                proof {
                    lemma_dict_tree(*entries);
                }
                let remote_url = read_field::<String>(entries, "remoteurl")?;
                let username = read_field::<String>(entries, "username")?;
                let password = read_field::<String>(entries, "password")?;
                Ok(Proxy { remote_url, username, password })
            },
            _ => Err(ConfigError::TypeMismatch(Expected::Dict)),
        }
    }

    fn to_node(&self) -> (node: Node) {
        let mut entries: Vec<(Node, Node)> = Vec::new();
        entries.push(entry("password", self.password.to_node()));
        entries.push(entry("remoteurl", self.remote_url.to_node()));
        entries.push(entry("username", self.username.to_node()));
        proof {
            lemma_dict_tree(entries);
            assert(tree_pairs(entries@) =~= Self::encode(self.model())->Dict_0);
        }
        Node::Dict(entries)
    }
}

impl Lenient for Proxy {
    proof fn lemma_null_is_default() {
    }
}

} // verus!
