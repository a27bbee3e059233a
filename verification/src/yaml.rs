//! The boundary to the YAML reader and writer: text to document tree and back.

use crate::error::{ConfigError, Expected, Fault};
use crate::text::{
    key_before, lemma_key_before_irreflexive, lemma_key_before_transitive, rank, same_text, Rank,
};
use crate::tree::{
    lemma_dict_tree, lemma_list_tree, orderly, text_keys_ascend, tree_pairs, trees, Node, Tree,
};
use vstd::prelude::*;

verus! {

/// `serde_yaml::Value`, a document as the YAML crate holds it. Nothing inside
/// it is visible here; `yaml_tree` names what it holds.
#[verifier::external_type_specification]
#[verifier::external_body]
pub struct ExValue(serde_yaml::Value);

/// The tree that a `serde_yaml::Value` holds: `Null`, `Bool`, `String`,
/// `Sequence` and `Mapping` as the variants of the same kind, a mapping's
/// entries in the order the value iterates them; a `Number` as `Int` where its
/// `as_i64` is `Some`, else as `Real` with the text its `Display` writes; a
/// `Tagged` value with the text its tag's `Display` writes.
pub uninterp spec fn yaml_tree(value: serde_yaml::Value) -> Tree;

/// What `serde_yaml::from_str::<serde_yaml::Value>` returns for a text: the
/// tree of the value, or the `Display` text of the error.
pub uninterp spec fn yaml_parsed(text: Seq<char>) -> Result<Tree, Seq<char>>;

/// What `serde_yaml::to_string` returns for a value that holds the given
/// tree: the text, or the `Display` text of the error.
pub uninterp spec fn yaml_written(tree: Tree) -> Result<Seq<char>, Seq<char>>;

/// What `<serde_yaml::Number as FromStr>::from_str` returns for a text: the
/// tree of the number as a value, or `None` where the text is no number.
pub uninterp spec fn yaml_number(text: Seq<char>) -> Option<Tree>;

/// The trees of a run of values, in order.
spec fn value_trees(values: Seq<serde_yaml::Value>) -> Seq<Tree> {
    Seq::new(values.len(), |i: int| yaml_tree(values[i]))
}

/// The trees of a run of borrowed entries, in order.
spec fn entry_trees(entries: Seq<(&serde_yaml::Value, &serde_yaml::Value)>) -> Seq<
    (Tree, Tree),
> {
    Seq::new(entries.len(), |i: int| (yaml_tree(*entries[i].0), yaml_tree(*entries[i].1)))
}

/// The trees of a run of owned entries, in order.
spec fn pair_trees(entries: Seq<(serde_yaml::Value, serde_yaml::Value)>) -> Seq<
    (Tree, Tree),
> {
    Seq::new(entries.len(), |i: int| (yaml_tree(entries[i].0), yaml_tree(entries[i].1)))
}

/// The outermost layer of a value, its parts still values.
enum Layer<'a> {
    /// The explicit null.
    Null,
    /// A boolean.
    Bool(bool),
    /// An integer that fits 64 signed bits.
    Int(i64),
    /// Any other number, by the text that writes it.
    Real(String),
    /// A string.
    Text(&'a str),
    /// A sequence.
    List(&'a Vec<serde_yaml::Value>),
    /// A mapping, as its entries in order.
    Dict(Vec<(&'a serde_yaml::Value, &'a serde_yaml::Value)>),
    /// A value under a tag.
    Tagged(String, &'a serde_yaml::Value),
}

impl<'a> Layer<'a> {
    /// The tree of the value that the layer was taken from.
    spec fn tree(self) -> Tree {
        match self {
            Layer::Null => Tree::Null,
            Layer::Bool(b) => Tree::Bool(b),
            Layer::Int(i) => Tree::Int(i),
            Layer::Real(t) => Tree::Real(t@),
            Layer::Text(t) => Tree::Text(t@),
            Layer::List(items) => Tree::List(value_trees(items@)),
            Layer::Dict(entries) => Tree::Dict(entry_trees(entries@)),
            Layer::Tagged(tag, inner) => Tree::Tagged(tag@, Box::new(yaml_tree(*inner))),
        }
    }
}

/// The outermost layer of a value to be built, its parts already values.
enum Piece {
    /// The explicit null.
    Null,
    /// A boolean.
    Bool(bool),
    /// An integer that fits 64 signed bits.
    Int(i64),
    /// A string.
    Text(String),
    /// A sequence.
    List(Vec<serde_yaml::Value>),
    /// A mapping, as its entries in order.
    Dict(Vec<(serde_yaml::Value, serde_yaml::Value)>),
}

impl Piece {
    /// The tree of the value that the piece describes.
    spec fn tree(self) -> Tree {
        match self {
            Piece::Null => Tree::Null,
            Piece::Bool(b) => Tree::Bool(b),
            Piece::Int(i) => Tree::Int(i),
            Piece::Text(t) => Tree::Text(t@),
            Piece::List(items) => Tree::List(value_trees(items@)),
            Piece::Dict(entries) => Tree::Dict(pair_trees(entries@)),
        }
    }

    /// Whether a value can hold the piece as it stands: the keys of a mapping
    /// are strings, no two of them the same.
    spec fn sound(self) -> bool {
        match self {
            Piece::Dict(entries) => distinct_text_keys(pair_trees(entries@)),
            _ => true,
        }
    }
}

/// Whether every key is a string and no two keys are the same.
spec fn distinct_text_keys(entries: Seq<(Tree, Tree)>) -> bool {
    &&& forall|i: int| 0 <= i < entries.len() ==> (#[trigger] entries[i]).0 is Text
    &&& forall|i: int, j: int|
        0 <= i < j < entries.len() ==> (#[trigger] entries[i]).0 != (#[trigger] entries[j]).0
}

/// `serde_yaml::from_str` at the type `serde_yaml::Value`, the error turned
/// into its `Display` text. The contract only names the outcome.
#[verifier::external_body]
fn yaml_load(text: &str) -> (r: Result<serde_yaml::Value, String>)
    ensures
        match r {
            Ok(value) => yaml_parsed(text@) == Ok::<Tree, Seq<char>>(yaml_tree(value)),
            Err(message) => yaml_parsed(text@) == Err::<Tree, Seq<char>>(message@),
        },
{
    serde_yaml::from_str::<serde_yaml::Value>(text).map_err(|e| e.to_string())
}

/// `serde_yaml::to_string` on a value, the error turned into its `Display`
/// text. The contract only names the outcome.
#[verifier::external_body]
fn yaml_dump(value: &serde_yaml::Value) -> (r: Result<String, String>)
    ensures
        match r {
            Ok(text) => yaml_written(yaml_tree(*value)) == Ok::<Seq<char>, Seq<char>>(text@),
            Err(message) => yaml_written(yaml_tree(*value)) == Err::<Seq<char>, Seq<char>>(
                message@,
            ),
        },
{
    serde_yaml::to_string(value).map_err(|e| e.to_string())
}

/// Takes a `serde_yaml::Value` apart by its variants, one arm each. A number
/// is told apart by `Number::as_i64`; its text and a tag's text come from
/// their `Display`; a mapping's entries come from `Mapping::iter`. The
/// contract says that the layer handed out is the outermost layer of the
/// value's tree.
#[verifier::external_body]
fn peel(value: &serde_yaml::Value) -> (layer: Layer<'_>)
    ensures
        layer.tree() == yaml_tree(*value),
{
    match value {
        serde_yaml::Value::Null => Layer::Null,
        serde_yaml::Value::Bool(b) => Layer::Bool(*b),
        serde_yaml::Value::Number(n) => match n.as_i64() {
            Some(i) => Layer::Int(i),
            None => Layer::Real(n.to_string()),
        },
        serde_yaml::Value::String(s) => Layer::Text(s),
        serde_yaml::Value::Sequence(items) => Layer::List(items),
        serde_yaml::Value::Mapping(m) => Layer::Dict(m.iter().collect()),
        serde_yaml::Value::Tagged(t) => Layer::Tagged(t.tag.to_string(), &t.value),
    }
}

/// Builds a `serde_yaml::Value` from its outermost layer, one arm each: the
/// variant of the same kind, an integer through `Number::from`, a mapping
/// through `Mapping::from_iter`, which keeps the order of distinct keys. The
/// contract says that the value holds the tree of the piece.
#[verifier::external_body]
fn assemble(piece: Piece) -> (value: serde_yaml::Value)
    requires
        piece.sound(),
    ensures
        yaml_tree(value) == piece.tree(),
{
    match piece {
        Piece::Null => serde_yaml::Value::Null,
        Piece::Bool(b) => serde_yaml::Value::Bool(b),
        Piece::Int(i) => serde_yaml::Value::Number(serde_yaml::Number::from(i)),
        Piece::Text(s) => serde_yaml::Value::String(s),
        Piece::List(items) => serde_yaml::Value::Sequence(items),
        Piece::Dict(entries) => serde_yaml::Value::Mapping(entries.into_iter().collect()),
    }
}

/// `<serde_yaml::Number as FromStr>::from_str`, the number wrapped as a
/// value. The contract only names the outcome.
#[verifier::external_body]
fn number_value(text: &str) -> (r: Option<serde_yaml::Value>)
    ensures
        match r {
            Some(value) => yaml_number(text@) == Some(yaml_tree(value)),
            None => yaml_number(text@) is None,
        },
{
    text.parse::<serde_yaml::Number>().ok().map(serde_yaml::Value::Number)
}

/// Copies a value into a node of the library.
pub fn node_of_value(value: &serde_yaml::Value) -> (node: Node)
    ensures
        node@ == yaml_tree(*value),
    decreases yaml_tree(*value),
{
    match peel(value) {
        Layer::Null => Node::Null,
        Layer::Bool(b) => Node::Bool(b),
        Layer::Int(i) => Node::Int(i),
        Layer::Real(t) => Node::Real(t),
        Layer::Text(t) => Node::Text(String::from_str(t)),
        Layer::List(items) => {
            let mut nodes: Vec<Node> = Vec::new();
            let mut i: usize = 0;
            while i < items.len()
                invariant
                    i <= items.len(),
                    nodes.len() == i,
                    yaml_tree(*value) == Tree::List(value_trees(items@)),
                    forall|j: int| 0 <= j < i ==> (#[trigger] nodes[j])@ == yaml_tree(items[j]),
                decreases items.len() - i,
            {
                proof {
                    let whole = yaml_tree(*value);
                    assert(whole->List_0[i as int] == yaml_tree(items[i as int]));
                    assert(decreases_to!(whole => whole->List_0));
                    assert(decreases_to!(whole->List_0 => whole->List_0[i as int]));
                }
                let node = node_of_value(&items[i]);
                nodes.push(node);
                i += 1;
            }
            proof {
                lemma_list_tree(nodes);
                assert(trees(nodes@) =~= value_trees(items@));
            }
            Node::List(nodes)
        },
        Layer::Dict(entries) => {
            let mut nodes: Vec<(Node, Node)> = Vec::new();
            let mut i: usize = 0;
            while i < entries.len()
                invariant
                    i <= entries.len(),
                    nodes.len() == i,
                    yaml_tree(*value) == Tree::Dict(entry_trees(entries@)),
                    forall|j: int|
                        0 <= j < i ==> (#[trigger] nodes[j]).0@ == yaml_tree(*entries[j].0)
                            && nodes[j].1@ == yaml_tree(*entries[j].1),
                decreases entries.len() - i,
            {
                proof {
                    let whole = yaml_tree(*value);
                    assert(whole->Dict_0[i as int] == (
                        yaml_tree(*entries[i as int].0),
                        yaml_tree(*entries[i as int].1),
                    ));
                    assert(decreases_to!(whole => whole->Dict_0));
                    assert(decreases_to!(whole->Dict_0 => whole->Dict_0[i as int]));
                    assert(decreases_to!(whole->Dict_0[i as int] => whole->Dict_0[i as int].0));
                    assert(decreases_to!(whole->Dict_0[i as int] => whole->Dict_0[i as int].1));
                }
                let key = node_of_value(entries[i].0);
                let item = node_of_value(entries[i].1);
                nodes.push((key, item));
                i += 1;
            }
            proof {
                lemma_dict_tree(nodes);
                assert(tree_pairs(nodes@) =~= entry_trees(entries@));
            }
            Node::Dict(nodes)
        },
        Layer::Tagged(tag, inner) => {
            proof {
                let whole = yaml_tree(*value);
                assert(*whole->Tagged_1 == yaml_tree(*inner));
                assert(decreases_to!(whole => whole->Tagged_1));
            }
            Node::Tagged(tag, Box::new(node_of_value(inner)))
        },
    }
}

/// Reads a text as one document.
pub fn read_document(text: &str) -> (r: Result<Node, ConfigError>)
    ensures
        match r {
            Ok(node) => yaml_parsed(text@) == Ok::<Tree, Seq<char>>(node@),
            Err(e) => yaml_parsed(text@) matches Err(message) && e@ == Fault::Syntax(message),
        },
{
    match yaml_load(text) {
        Ok(value) => Ok(node_of_value(&value)),
        Err(message) => Err(ConfigError::Syntax(message)),
    }
}

/// Whether a tree can be written: it holds no tag, every number other than
/// an integer is in the spelling that reads back as itself, and the keys of
/// every mapping are strings in strictly ascending order.
pub open spec fn writable(tree: Tree) -> bool
    decreases tree,
{
    match tree {
        Tree::Null => true,
        Tree::Bool(_) => true,
        Tree::Int(_) => true,
        Tree::Text(_) => true,
        Tree::Real(t) => yaml_number(t) == Some(Tree::Real(t)),
        Tree::List(items) => forall|i: int|
            0 <= i < items.len() ==> writable(#[trigger] items[i]),
        Tree::Dict(entries) => text_keys_ascend(entries) && forall|i: int|
            0 <= i < entries.len() ==> writable((#[trigger] entries[i]).1),
        Tree::Tagged(_, _) => false,
    }
}

/// Whether every number in a tree, other than an integer, is in the spelling
/// that reads back as itself.
pub open spec fn spelled(tree: Tree) -> bool
    decreases tree,
{
    match tree {
        Tree::Real(t) => yaml_number(t) == Some(Tree::Real(t)),
        Tree::List(items) => forall|i: int|
            0 <= i < items.len() ==> spelled(#[trigger] items[i]),
        Tree::Dict(entries) => forall|i: int|
            0 <= i < entries.len() ==> spelled((#[trigger] entries[i]).1),
        _ => true,
    }
}

/// A tree can be written exactly where it is in canonical order and its
/// numbers are spelled as the writer spells them.
pub proof fn lemma_writable(tree: Tree)
    ensures
        writable(tree) == (orderly(tree) && spelled(tree)),
    decreases tree,
{
    match tree {
        Tree::List(items) => {
            assert forall|i: int| 0 <= i < items.len() implies writable(#[trigger] items[i]) == (
            orderly(items[i]) && spelled(items[i])) by {
                lemma_writable(items[i]);
            }
        },
        Tree::Dict(entries) => {
            assert forall|i: int| 0 <= i < entries.len() implies writable(
                (#[trigger] entries[i]).1,
            ) == (orderly(entries[i].1) && spelled(entries[i].1)) by {
                lemma_writable(entries[i].1);
            }
        },
        _ => {},
    }
}

/// Copies a node into a value, where the node can be written.
pub fn value_of_node(node: &Node) -> (r: Option<serde_yaml::Value>)
    ensures
        match r {
            Some(value) => writable(node@) && yaml_tree(value) == node@,
            None => !writable(node@),
        },
    decreases node,
{
    match node {
        Node::Null => Some(assemble(Piece::Null)),
        Node::Bool(b) => Some(assemble(Piece::Bool(*b))),
        Node::Int(i) => Some(assemble(Piece::Int(*i))),
        Node::Text(t) => Some(assemble(Piece::Text(t.clone()))),
        Node::Real(t) => match number_value(t.as_str()) {
            Some(value) => {
                let same = match peel(&value) {
                    Layer::Real(again) => same_text(again.as_str(), t.as_str()),
                    _ => false,
                };
                if same {
                    Some(value)
                } else {
                    None
                }
            },
            None => None,
        },
        Node::List(items) => {
            let mut values: Vec<serde_yaml::Value> = Vec::new();
            let mut i: usize = 0;
            proof {
                lemma_list_tree(*items);
            }
            while i < items.len()
                invariant
                    i <= items.len(),
                    values.len() == i,
                    *node == Node::List(*items),
                    node@ == Tree::List(trees(items@)),
                    forall|j: int|
                        0 <= j < i ==> yaml_tree(#[trigger] values[j]) == items[j]@ && writable(
                            items[j]@,
                        ),
                decreases items.len() - i,
            {
                assert(trees(items@)[i as int] == items[i as int]@);
                match value_of_node(&items[i]) {
                    Some(value) => {
                        values.push(value);
                    },
                    None => {
                        assert(!writable(node@->List_0[i as int]));
                        return None;
                    },
                }
                i += 1;
            }
            assert(value_trees(values@) =~= trees(items@));
            assert forall|j: int| 0 <= j < trees(items@).len() implies writable(
                #[trigger] trees(items@)[j],
            ) by {
                assert(trees(items@)[j] == items[j]@);
            }
            Some(assemble(Piece::List(values)))
        },
        Node::Dict(entries) => {
            let mut values: Vec<(serde_yaml::Value, serde_yaml::Value)> = Vec::new();
            let mut i: usize = 0;
            proof {
                lemma_dict_tree(*entries);
            }
            while i < entries.len()
                invariant
                    i <= entries.len(),
                    values.len() == i,
                    *node == Node::Dict(*entries),
                    node@ == Tree::Dict(tree_pairs(entries@)),
                    forall|j: int|
                        0 <= j < i ==> {
                            &&& yaml_tree((#[trigger] values[j]).0) == entries[j].0@
                            &&& yaml_tree(values[j].1) == entries[j].1@
                            &&& entries[j].0@ is Text
                            &&& writable(entries[j].1@)
                        },
                    forall|a: int, b: int|
                        0 <= a < b < i ==> key_before(
                            (#[trigger] entries[a]).0@->Text_0,
                            (#[trigger] entries[b]).0@->Text_0,
                        ),
                decreases entries.len() - i,
            {
                assert(tree_pairs(entries@)[i as int] == (entries[i as int].0@, entries[i as int].1@));
                let key = match &entries[i].0 {
                    Node::Text(key) => key,
                    _ => {
                        return None;
                    },
                };
                if i > 0 {
                    let ordered = match &entries[i - 1].0 {
                        Node::Text(before) => rank(before.as_str(), key.as_str()) == Rank::Before,
                        _ => false,
                    };
                    if !ordered {
                        assert(tree_pairs(entries@)[i - 1] == (
                            entries[i - 1].0@,
                            entries[i - 1].1@,
                        ));
                        return None;
                    }
                    assert forall|a: int| 0 <= a < i implies key_before(
                        (#[trigger] entries[a]).0@->Text_0,
                        key@,
                    ) by {
                        if a < i - 1 {
                            lemma_key_before_transitive(
                                entries[a].0@->Text_0,
                                entries[i - 1].0@->Text_0,
                                key@,
                            );
                        }
                    }
                }
                let value = match value_of_node(&entries[i].1) {
                    Some(value) => value,
                    None => {
                        return None;
                    },
                };
                values.push((assemble(Piece::Text(key.clone())), value));
                i += 1;
            }
            proof {
                let pairs = tree_pairs(entries@);
                assert(pair_trees(values@) =~= pairs);
                assert forall|a: int, b: int| 0 <= a < b < pairs.len() implies key_before(
                    (#[trigger] pairs[a]).0->Text_0,
                    (#[trigger] pairs[b]).0->Text_0,
                ) by {
                    assert(key_before(entries[a].0@->Text_0, entries[b].0@->Text_0));
                }
                assert forall|a: int, b: int| 0 <= a < b < pairs.len() implies (
                #[trigger] pairs[a]).0 != (#[trigger] pairs[b]).0 by {
                    lemma_key_before_irreflexive(pairs[a].0->Text_0);
                }
                assert forall|a: int| 0 <= a < pairs.len() implies writable(
                    (#[trigger] pairs[a]).1,
                ) by {
                    assert(pairs[a].1 == entries[a].1@);
                }
            }
            Some(assemble(Piece::Dict(values)))
        },
        Node::Tagged(_, _) => None,
    }
}

/// Writes a node as the text of one document.
pub fn write_document(node: &Node) -> (r: Result<String, ConfigError>)
    ensures
        match r {
            Ok(text) => writable(node@) && yaml_written(node@) == Ok::<Seq<char>, Seq<char>>(
                text@,
            ),
            Err(e) => if writable(node@) {
                yaml_written(node@) matches Err(message) && e@ == Fault::Emit(message)
            } else {
                e@ == Fault::TypeMismatch(Expected::Writable)
            },
        },
{
    match value_of_node(node) {
        Some(value) => match yaml_dump(&value) {
            Ok(text) => Ok(text),
            Err(message) => Err(ConfigError::Emit(message)),
        },
        None => Err(ConfigError::TypeMismatch(Expected::Writable)),
    }
}

} // verus!
