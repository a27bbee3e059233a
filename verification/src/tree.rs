//! The document tree: what a configuration is read from and written to.

use crate::text::{key_before, lemma_key_before_transitive};
use vstd::prelude::*;

verus! {

/// A document as a mathematical value.
pub enum Tree {
    /// The explicit null.
    Null,
    /// A boolean.
    Bool(bool),
    /// An integer that fits 64 signed bits.
    Int(i64),
    /// Any other number, by the text that writes it.
    Real(Seq<char>),
    /// A string.
    Text(Seq<char>),
    /// A sequence of documents.
    List(Seq<Tree>),
    /// A mapping, as its entries in document order: key, then value.
    Dict(Seq<(Tree, Tree)>),
    /// A document under a tag: the tag's text, then the document.
    Tagged(Seq<char>, Box<Tree>),
}

/// A document in memory. Its view is the `Tree` it stands for.
#[derive(Debug, PartialEq)]
pub enum Node {
    /// The explicit null.
    Null,
    /// A boolean.
    Bool(bool),
    /// An integer that fits 64 signed bits.
    Int(i64),
    /// Any other number, by the text that writes it.
    Real(String),
    /// A string.
    Text(String),
    /// A sequence of documents.
    List(Vec<Node>),
    /// A mapping, as its entries in document order: key, then value.
    Dict(Vec<(Node, Node)>),
    /// A document under a tag: the tag's text, then the document.
    Tagged(String, Box<Node>),
}

/// The tree that a node stands for.
pub open spec fn tree_of(node: Node) -> Tree
    decreases node,
{
    match node {
        Node::Null => Tree::Null,
        Node::Bool(b) => Tree::Bool(b),
        Node::Int(i) => Tree::Int(i),
        Node::Real(t) => Tree::Real(t@),
        Node::Text(t) => Tree::Text(t@),
        Node::List(items) => Tree::List(
            Seq::new(
                items.len() as nat,
                |i: int|
                    if 0 <= i < items.len() {
                        tree_of(items[i])
                    } else {
                        Tree::Null
                    },
            ),
        ),
        Node::Dict(entries) => Tree::Dict(
            Seq::new(
                entries.len() as nat,
                |i: int|
                    if 0 <= i < entries.len() {
                        (tree_of(entries[i].0), tree_of(entries[i].1))
                    } else {
                        (Tree::Null, Tree::Null)
                    },
            ),
        ),
        Node::Tagged(tag, inner) => Tree::Tagged(tag@, Box::new(tree_of(*inner))),
    }
}

impl View for Node {
    type V = Tree;

    open spec fn view(&self) -> Tree {
        tree_of(*self)
    }
}

/// The trees of a run of nodes, in order.
pub open spec fn trees(items: Seq<Node>) -> Seq<Tree> {
    Seq::new(items.len(), |i: int| items[i]@)
}

/// The trees of a run of entries, in order.
pub open spec fn tree_pairs(entries: Seq<(Node, Node)>) -> Seq<(Tree, Tree)> {
    Seq::new(entries.len(), |i: int| (entries[i].0@, entries[i].1@))
}

/// Whether the keys of a mapping are strings in strictly ascending order.
pub open spec fn text_keys_ascend(entries: Seq<(Tree, Tree)>) -> bool {
    &&& forall|i: int| 0 <= i < entries.len() ==> (#[trigger] entries[i]).0 is Text
    &&& forall|i: int, j: int|
        0 <= i < j < entries.len() ==> key_before(
            (#[trigger] entries[i]).0->Text_0,
            (#[trigger] entries[j]).0->Text_0,
        )
}

/// Whether a tree is in canonical order: it holds no tag, and the keys of
/// every mapping in it are strings in strictly ascending order.
pub open spec fn orderly(tree: Tree) -> bool
    decreases tree,
{
    match tree {
        Tree::List(items) => forall|i: int|
            0 <= i < items.len() ==> orderly(#[trigger] items[i]),
        Tree::Dict(entries) => text_keys_ascend(entries) && forall|i: int|
            0 <= i < entries.len() ==> orderly((#[trigger] entries[i]).1),
        Tree::Tagged(_, _) => false,
        _ => true,
    }
}

/// String keys of which each sorts before the next are in ascending order.
pub proof fn lemma_ascend_by_neighbours(entries: Seq<(Tree, Tree)>)
    requires
        forall|i: int| 0 <= i < entries.len() ==> (#[trigger] entries[i]).0 is Text,
        forall|i: int|
            0 <= i < entries.len() - 1 ==> key_before(
                (#[trigger] entries[i]).0->Text_0,
                entries[i + 1].0->Text_0,
            ),
    ensures
        text_keys_ascend(entries),
{
    assert forall|i: int, j: int| 0 <= i < j < entries.len() implies key_before(
        (#[trigger] entries[i]).0->Text_0,
        (#[trigger] entries[j]).0->Text_0,
    ) by {
        lemma_ascend_between(entries, i, j);
    }
}

/// Among string keys of which each sorts before the next, an earlier one
/// sorts before a later one.
pub proof fn lemma_ascend_between(entries: Seq<(Tree, Tree)>, i: int, j: int)
    requires
        0 <= i < j < entries.len(),
        forall|i: int|
            0 <= i < entries.len() - 1 ==> key_before(
                (#[trigger] entries[i]).0->Text_0,
                entries[i + 1].0->Text_0,
            ),
    ensures
        key_before(entries[i].0->Text_0, entries[j].0->Text_0),
    decreases j - i,
{
    assert(key_before(entries[j - 1].0->Text_0, entries[j].0->Text_0));
    if i < j - 1 {
        lemma_ascend_between(entries, i, j - 1);
        lemma_key_before_transitive(
            entries[i].0->Text_0,
            entries[j - 1].0->Text_0,
            entries[j].0->Text_0,
        );
    }
}

/// A sequence node stands for the sequence of its items' trees.
pub proof fn lemma_list_tree(items: Vec<Node>)
    ensures
        Node::List(items)@ == Tree::List(trees(items@)),
{
    assert(Node::List(items)@->List_0 =~= trees(items@));
}

/// A mapping node stands for the mapping of its entries' trees.
pub proof fn lemma_dict_tree(entries: Vec<(Node, Node)>)
    ensures
        Node::Dict(entries)@ == Tree::Dict(tree_pairs(entries@)),
{
    assert(Node::Dict(entries)@->Dict_0 =~= tree_pairs(entries@));
}

} // verus!
