//! Registry policy.

use crate::codec::{decode_field, entry, find_from, lemma_field_valid, read_field, Codec, Lenient};
use crate::error::{ConfigError, Expected, Fault};
use crate::tree::{
    lemma_ascend_by_neighbours, lemma_dict_tree, orderly, text_keys_ascend, tree_pairs, Node, Tree,
};
use vstd::prelude::*;

verus! {

/// Policy on repositories.
#[derive(Debug, PartialEq)]
pub struct Repository {
    /// The classes of repository that are allowed.
    pub classes: Vec<String>,
}

/// `Repository` as a mathematical value.
pub struct RepositoryModel {
    pub classes: Seq<Seq<char>>,
}

impl Codec for Repository {
    type Model = RepositoryModel;

    open spec fn model(&self) -> RepositoryModel {
        RepositoryModel {
            classes: self.classes.model(),
        }
    }

    open spec fn valid(m: RepositoryModel) -> bool {
        &&& Vec::<String>::valid(m.classes)
    }

    open spec fn default_model() -> RepositoryModel {
        RepositoryModel {
            classes: Vec::<String>::default_model(),
        }
    }

    /// An explicit null reads as the default. A mapping is read field by
    /// field: a field whose key is missing takes its default, keys that
    /// name no field are passed over, and the first field in the order below
    /// that cannot be read decides the error. Anything else is no section.
    open spec fn decode(tree: Tree) -> Result<RepositoryModel, Fault> {
        match tree {
            Tree::Null => Ok(Self::default_model()),
            Tree::Dict(entries) => {
                let classes = decode_field::<Vec<String>>(entries, "classes"@);
                if classes is Err {
                    Err(classes->Err_0)
                } else {
                    Ok(
                        RepositoryModel {
                            classes: classes->Ok_0,
                        },
                    )
                }
            },
            _ => Err(Fault::TypeMismatch(Expected::Dict)),
        }
    }

    /// A mapping with one entry for every field, in ascending key order.
    open spec fn encode(m: RepositoryModel) -> Tree {
        Tree::Dict(
            seq![
                (Tree::Text("classes"@), Vec::<String>::encode(m.classes)),
            ],
        )
    }

    proof fn lemma_default_valid() {
        Vec::<String>::lemma_default_valid();
    }

    proof fn lemma_decode_valid(tree: Tree) {
        if let Tree::Dict(entries) = tree {
            lemma_field_valid::<Vec<String>>(entries, "classes"@);
        } else {
            Self::lemma_default_valid();
        }
    }

    proof fn lemma_round_trip(m: RepositoryModel) {
        let entries = Self::encode(m)->Dict_0;
        assert(decode_field::<Vec<String>>(
            entries,
            "classes"@,
        ) == Ok::<Seq<Seq<char>>, Fault>(m.classes)) by {
            reveal_strlit("classes");
            reveal_with_fuel(find_from, 2);
            Vec::<String>::lemma_round_trip(m.classes);
        }
    }

    proof fn lemma_encode_orderly(m: RepositoryModel) {
        let entries = Self::encode(m)->Dict_0;
        assert(text_keys_ascend(entries)) by {
            lemma_ascend_by_neighbours(entries);
        }
        assert forall|i: int| 0 <= i < entries.len() implies orderly(
            (#[trigger] entries[i]).1,
        ) by {
            Vec::<String>::lemma_encode_orderly(m.classes);
        }
    }

    fn default_value() -> (r: Repository) {
        Repository {
            classes: Vec::<String>::default_value(),
        }
    }

    fn from_node(node: &Node) -> (r: Result<Repository, ConfigError>) {
        match node {
            Node::Null => Ok(Self::default_value()),
            Node::Dict(entries) => {
                proof {
                    lemma_dict_tree(*entries);
                }
                let classes = read_field::<Vec<String>>(entries, "classes")?;
                Ok(Repository { classes })
            },
            _ => Err(ConfigError::TypeMismatch(Expected::Dict)),
        }
    }

    fn to_node(&self) -> (node: Node) {
        let mut entries: Vec<(Node, Node)> = Vec::new();
        entries.push(entry("classes", self.classes.to_node()));
        proof {
            lemma_dict_tree(entries);
            assert(tree_pairs(entries@) =~= Self::encode(self.model())->Dict_0);
        }
        Node::Dict(entries)
    }
}

impl Lenient for Repository {
    proof fn lemma_null_is_default() {
    }
}

/// The policy section.
#[derive(Debug, PartialEq)]
pub struct Policy {
    /// Policy on repositories.
    pub repository: Repository,
}

/// `Policy` as a mathematical value.
pub struct PolicyModel {
    pub repository: RepositoryModel,
}

impl Codec for Policy {
    type Model = PolicyModel;

    open spec fn model(&self) -> PolicyModel {
        PolicyModel {
            repository: self.repository.model(),
        }
    }

    open spec fn valid(m: PolicyModel) -> bool {
        &&& Repository::valid(m.repository)
    }

    open spec fn default_model() -> PolicyModel {
        PolicyModel {
            repository: Repository::default_model(),
        }
    }

    /// An explicit null reads as the default. A mapping is read field by
    /// field: a field whose key is missing takes its default, keys that
    /// name no field are passed over, and the first field in the order below
    /// that cannot be read decides the error. Anything else is no section.
    open spec fn decode(tree: Tree) -> Result<PolicyModel, Fault> {
        match tree {
            Tree::Null => Ok(Self::default_model()),
            Tree::Dict(entries) => {
                let repository = decode_field::<Repository>(entries, "repository"@);
                if repository is Err {
                    Err(repository->Err_0)
                } else {
                    Ok(
                        PolicyModel {
                            repository: repository->Ok_0,
                        },
                    )
                }
            },
            _ => Err(Fault::TypeMismatch(Expected::Dict)),
        }
    }

    /// A mapping with one entry for every field, in ascending key order.
    open spec fn encode(m: PolicyModel) -> Tree {
        Tree::Dict(
            seq![
                (Tree::Text("repository"@), Repository::encode(m.repository)),
            ],
        )
    }

    proof fn lemma_default_valid() {
        Repository::lemma_default_valid();
    }

    proof fn lemma_decode_valid(tree: Tree) {
        if let Tree::Dict(entries) = tree {
            lemma_field_valid::<Repository>(entries, "repository"@);
        } else {
            Self::lemma_default_valid();
        }
    }

    proof fn lemma_round_trip(m: PolicyModel) {
        let entries = Self::encode(m)->Dict_0;
        assert(decode_field::<Repository>(
            entries,
            "repository"@,
        ) == Ok::<RepositoryModel, Fault>(m.repository)) by {
            reveal_strlit("repository");
            reveal_with_fuel(find_from, 2);
            Repository::lemma_round_trip(m.repository);
        }
    }

    proof fn lemma_encode_orderly(m: PolicyModel) {
        let entries = Self::encode(m)->Dict_0;
        assert(text_keys_ascend(entries)) by {
            lemma_ascend_by_neighbours(entries);
        }
        assert forall|i: int| 0 <= i < entries.len() implies orderly(
            (#[trigger] entries[i]).1,
        ) by {
            Repository::lemma_encode_orderly(m.repository);
        }
    }

    fn default_value() -> (r: Policy) {
        Policy {
            repository: Repository::default_value(),
        }
    }

    fn from_node(node: &Node) -> (r: Result<Policy, ConfigError>) {
        match node {
            Node::Null => Ok(Self::default_value()),
            Node::Dict(entries) => {
                proof {
                    lemma_dict_tree(*entries);
                }
                let repository = read_field::<Repository>(entries, "repository")?;
                Ok(Policy { repository })
            },
            _ => Err(ConfigError::TypeMismatch(Expected::Dict)),
        }
    }

    fn to_node(&self) -> (node: Node) {
        let mut entries: Vec<(Node, Node)> = Vec::new();
        entries.push(entry("repository", self.repository.to_node()));
        proof {
            lemma_dict_tree(entries);
            assert(tree_pairs(entries@) =~= Self::encode(self.model())->Dict_0);
        }
        Node::Dict(entries)
    }
}

impl Lenient for Policy {
    proof fn lemma_null_is_default() {
    }
}

} // verus!
