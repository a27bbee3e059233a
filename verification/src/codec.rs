//! The mapping between values of the configuration and document trees, one
//! law for every type that takes part in it.

use crate::error::{ConfigError, Expected, Fault};
use crate::text::{same_text, signed_decimal, signed_decimal_text};
use crate::tree::{lemma_list_tree, orderly, tree_pairs, trees, Node, Tree};
use vstd::prelude::*;

verus! {

/// A type of the configuration that can be read from a document tree and
/// written to one.
pub trait Codec: Sized {
    /// The value as mathematics sees it.
    type Model;

    /// The mathematical value of `self`.
    spec fn model(&self) -> Self::Model;

    /// The invariant of the type, on its model.
    spec fn valid(m: Self::Model) -> bool;

    /// The value that stands in where the document says nothing.
    spec fn default_model() -> Self::Model;

    /// What a tree is read as.
    spec fn decode(tree: Tree) -> Result<Self::Model, Fault>;

    /// The tree that a value is written as.
    spec fn encode(m: Self::Model) -> Tree;

    /// The default is a valid value.
    proof fn lemma_default_valid()
        ensures
            Self::valid(Self::default_model()),
    ;

    /// Whatever is read is valid.
    proof fn lemma_decode_valid(tree: Tree)
        ensures
            Self::decode(tree) matches Ok(m) ==> Self::valid(m),
    ;

    /// A valid value that is written and read again is itself.
    proof fn lemma_round_trip(m: Self::Model)
        requires
            Self::valid(m),
        ensures
            Self::decode(Self::encode(m)) == Ok::<Self::Model, Fault>(m),
    ;

    /// A valid value is written in canonical order: without tags, and with
    /// the keys of every mapping ascending.
    proof fn lemma_encode_orderly(m: Self::Model)
        requires
            Self::valid(m),
        ensures
            orderly(Self::encode(m)),
    ;

    /// The default value.
    fn default_value() -> (r: Self)
        ensures
            r.model() == Self::default_model(),
    ;

    /// Reads a value from a node.
    fn from_node(node: &Node) -> (r: Result<Self, ConfigError>)
        ensures
            match r {
                Ok(value) => Self::decode(node@) == Ok::<Self::Model, Fault>(value.model()),
                Err(e) => Self::decode(node@) == Err::<Self::Model, Fault>(e@),
            },
    ;

    /// Writes the value as a node.
    fn to_node(&self) -> (node: Node)
        ensures
            node@ == Self::encode(self.model()),
    ;
}

/// A type of the configuration that reads an explicit null as its default:
/// the sections, the collections, the optional parts, and the string, for
/// which the null is the empty value.
pub trait Lenient: Codec {
    /// An explicit null reads as the default.
    proof fn lemma_null_is_default()
        ensures
            Self::decode(Tree::Null) == Ok::<Self::Model, Fault>(Self::default_model()),
    ;
}

/// A result of reading, as mathematics sees it.
pub open spec fn outcome<T: Codec>(r: Result<T, ConfigError>) -> Result<T::Model, Fault> {
    match r {
        Ok(value) => Ok(value.model()),
        Err(e) => Err(e@),
    }
}

/// The text that a scalar other than null is read as where a string is
/// wanted: a string as it is, an integer in decimal, another number as it is
/// written, a boolean as `true` or `false`.
pub open spec fn scalar_text(tree: Tree) -> Option<Seq<char>> {
    match tree {
        Tree::Text(t) => Some(t),
        Tree::Int(i) => Some(signed_decimal(i as int)),
        Tree::Real(t) => Some(t),
        Tree::Bool(b) => Some(
            if b {
                "true"@
            } else {
                "false"@
            },
        ),
        _ => None,
    }
}

/// Reads a scalar other than null as a text.
pub fn text_of_scalar(node: &Node) -> (r: Option<String>)
    ensures
        match r {
            Some(t) => scalar_text(node@) == Some(t@),
            None => scalar_text(node@) is None,
        },
{
    match node {
        Node::Text(t) => Some(t.clone()),
        Node::Int(i) => Some(signed_decimal_text(*i)),
        Node::Real(t) => Some(t.clone()),
        Node::Bool(b) => Some(
            String::from_str(
                if *b {
                    "true"
                } else {
                    "false"
                },
            ),
        ),
        _ => None,
    }
}

impl Codec for String {
    type Model = Seq<char>;

    open spec fn model(&self) -> Seq<char> {
        self@
    }

    open spec fn valid(m: Seq<char>) -> bool {
        true
    }

    open spec fn default_model() -> Seq<char> {
        Seq::empty()
    }

    /// A scalar is read by its text, and an explicit null, which is what an
    /// empty value reads as, as the empty text.
    open spec fn decode(tree: Tree) -> Result<Seq<char>, Fault> {
        match tree {
            Tree::Null => Ok(Seq::empty()),
            _ => match scalar_text(tree) {
                Some(t) => Ok(t),
                None => Err(Fault::TypeMismatch(Expected::Text)),
            },
        }
    }

    open spec fn encode(m: Seq<char>) -> Tree {
        Tree::Text(m)
    }

    proof fn lemma_default_valid() {
    }

    proof fn lemma_decode_valid(tree: Tree) {
    }

    proof fn lemma_round_trip(m: Seq<char>) {
    }

    proof fn lemma_encode_orderly(m: Seq<char>) {
    }

    fn default_value() -> (r: String) {
        String::new()
    }

    fn from_node(node: &Node) -> (r: Result<String, ConfigError>) {
        match node {
            Node::Null => Ok(String::new()),
            _ => match text_of_scalar(node) {
                Some(t) => Ok(t),
                None => Err(ConfigError::TypeMismatch(Expected::Text)),
            },
        }
    }

    fn to_node(&self) -> (node: Node) {
        Node::Text(self.clone())
    }
}

impl Lenient for String {
    proof fn lemma_null_is_default() {
    }
}

impl Codec for bool {
    type Model = bool;

    open spec fn model(&self) -> bool {
        *self
    }

    open spec fn valid(m: bool) -> bool {
        true
    }

    open spec fn default_model() -> bool {
        false
    }

    /// Only a boolean will do. The default is for a key that is missing,
    /// not for an explicit null.
    open spec fn decode(tree: Tree) -> Result<bool, Fault> {
        match tree {
            Tree::Bool(b) => Ok(b),
            _ => Err(Fault::TypeMismatch(Expected::Boolean)),
        }
    }

    open spec fn encode(m: bool) -> Tree {
        Tree::Bool(m)
    }

    proof fn lemma_default_valid() {
    }

    proof fn lemma_decode_valid(tree: Tree) {
    }

    proof fn lemma_round_trip(m: bool) {
    }

    proof fn lemma_encode_orderly(m: bool) {
    }

    fn default_value() -> (r: bool) {
        false
    }

    fn from_node(node: &Node) -> (r: Result<bool, ConfigError>) {
        match node {
            Node::Bool(b) => Ok(*b),
            _ => Err(ConfigError::TypeMismatch(Expected::Boolean)),
        }
    }

    fn to_node(&self) -> (node: Node) {
        Node::Bool(*self)
    }
}

impl Codec for u32 {
    type Model = u32;

    open spec fn model(&self) -> u32 {
        *self
    }

    open spec fn valid(m: u32) -> bool {
        true
    }

    open spec fn default_model() -> u32 {
        0
    }

    /// Only an integer in range will do. The default is for a key that is
    /// missing, not for an explicit null.
    open spec fn decode(tree: Tree) -> Result<u32, Fault> {
        match tree {
            Tree::Int(i) => if 0 <= i <= u32::MAX {
                Ok(i as u32)
            } else {
                Err(Fault::TypeMismatch(Expected::Integer))
            },
            _ => Err(Fault::TypeMismatch(Expected::Integer)),
        }
    }

    open spec fn encode(m: u32) -> Tree {
        Tree::Int(m as i64)
    }

    proof fn lemma_default_valid() {
    }

    proof fn lemma_decode_valid(tree: Tree) {
    }

    proof fn lemma_round_trip(m: u32) {
    }

    proof fn lemma_encode_orderly(m: u32) {
    }

    fn default_value() -> (r: u32) {
        0
    }

    fn from_node(node: &Node) -> (r: Result<u32, ConfigError>) {
        match node {
            Node::Int(i) => if 0 <= *i && *i <= 0xffff_ffff {
                Ok(*i as u32)
            } else {
                Err(ConfigError::TypeMismatch(Expected::Integer))
            },
            _ => Err(ConfigError::TypeMismatch(Expected::Integer)),
        }
    }

    fn to_node(&self) -> (node: Node) {
        Node::Int(*self as i64)
    }
}

impl Codec for i32 {
    type Model = i32;

    open spec fn model(&self) -> i32 {
        *self
    }

    open spec fn valid(m: i32) -> bool {
        true
    }

    open spec fn default_model() -> i32 {
        0
    }

    /// Only an integer in range will do. The default is for a key that is
    /// missing, not for an explicit null.
    open spec fn decode(tree: Tree) -> Result<i32, Fault> {
        match tree {
            Tree::Int(i) => if i32::MIN <= i <= i32::MAX {
                Ok(i as i32)
            } else {
                Err(Fault::TypeMismatch(Expected::Integer))
            },
            _ => Err(Fault::TypeMismatch(Expected::Integer)),
        }
    }

    open spec fn encode(m: i32) -> Tree {
        Tree::Int(m as i64)
    }

    proof fn lemma_default_valid() {
    }

    proof fn lemma_decode_valid(tree: Tree) {
    }

    proof fn lemma_round_trip(m: i32) {
    }

    proof fn lemma_encode_orderly(m: i32) {
    }

    fn default_value() -> (r: i32) {
        0
    }

    fn from_node(node: &Node) -> (r: Result<i32, ConfigError>) {
        match node {
            Node::Int(i) => if -0x8000_0000 <= *i && *i <= 0x7fff_ffff {
                Ok(*i as i32)
            } else {
                Err(ConfigError::TypeMismatch(Expected::Integer))
            },
            _ => Err(ConfigError::TypeMismatch(Expected::Integer)),
        }
    }

    fn to_node(&self) -> (node: Node) {
        Node::Int(*self as i64)
    }
}

/// A type of the configuration that is never written as the explicit null.
pub trait Solid: Codec {
    /// No value is written as the explicit null.
    proof fn lemma_never_null(m: Self::Model)
        ensures
            !(Self::encode(m) is Null),
    ;
}

impl<T: Solid> Codec for Option<T> {
    type Model = Option<T::Model>;

    open spec fn model(&self) -> Option<T::Model> {
        match self {
            Some(value) => Some(value.model()),
            None => None,
        }
    }

    open spec fn valid(m: Option<T::Model>) -> bool {
        m matches Some(inner) ==> T::valid(inner)
    }

    open spec fn default_model() -> Option<T::Model> {
        None
    }

    open spec fn decode(tree: Tree) -> Result<Option<T::Model>, Fault> {
        match tree {
            Tree::Null => Ok(None),
            _ => match T::decode(tree) {
                Ok(inner) => Ok(Some(inner)),
                Err(e) => Err(e),
            },
        }
    }

    open spec fn encode(m: Option<T::Model>) -> Tree {
        match m {
            Some(inner) => T::encode(inner),
            None => Tree::Null,
        }
    }

    proof fn lemma_default_valid() {
    }

    proof fn lemma_decode_valid(tree: Tree) {
        T::lemma_decode_valid(tree);
    }

    proof fn lemma_round_trip(m: Option<T::Model>) {
        if let Some(inner) = m {
            T::lemma_never_null(inner);
            T::lemma_round_trip(inner);
        }
    }

    proof fn lemma_encode_orderly(m: Option<T::Model>) {
        if let Some(inner) = m {
            T::lemma_encode_orderly(inner);
        }
    }

    fn default_value() -> (r: Option<T>) {
        None
    }

    fn from_node(node: &Node) -> (r: Result<Option<T>, ConfigError>) {
        match node {
            Node::Null => Ok(None),
            _ => match T::from_node(node) {
                Ok(value) => Ok(Some(value)),
                Err(e) => Err(e),
            },
        }
    }

    fn to_node(&self) -> (node: Node) {
        match self {
            Some(value) => value.to_node(),
            None => Node::Null,
        }
    }
}

impl<T: Solid> Lenient for Option<T> {
    proof fn lemma_null_is_default() {
    }
}

/// What the items of a sequence are read as, from position `i` on, after
/// `done` was read from those before. The first item that cannot be read
/// decides the error.
pub open spec fn decode_items<T: Codec>(items: Seq<Tree>, i: int, done: Seq<T::Model>) -> Result<
    Seq<T::Model>,
    Fault,
>
    decreases items.len() - i,
{
    if i < 0 || i >= items.len() {
        Ok(done)
    } else {
        match T::decode(items[i]) {
            Ok(m) => decode_items::<T>(items, i + 1, done.push(m)),
            Err(e) => Err(e),
        }
    }
}

/// The models of a run of values, in order.
pub open spec fn models<T: Codec>(values: Seq<T>) -> Seq<T::Model> {
    Seq::new(values.len(), |i: int| values[i].model())
}

/// The trees that a run of models is written as, in order.
pub open spec fn encode_items<T: Codec>(ms: Seq<T::Model>) -> Seq<Tree> {
    Seq::new(ms.len(), |i: int| T::encode(ms[i]))
}

/// Reading back what was written for a run of valid values gives the run.
pub proof fn lemma_items_round_trip<T: Codec>(ms: Seq<T::Model>, i: int)
    requires
        0 <= i <= ms.len(),
        forall|j: int| 0 <= j < ms.len() ==> T::valid(#[trigger] ms[j]),
    ensures
        decode_items::<T>(encode_items::<T>(ms), i, ms.take(i)) == Ok::<Seq<T::Model>, Fault>(ms),
    decreases ms.len() - i,
{
    if i < ms.len() {
        T::lemma_round_trip(ms[i]);
        assert(ms.take(i).push(ms[i]) == ms.take(i + 1));
        lemma_items_round_trip::<T>(ms, i + 1);
    } else {
        assert(ms.take(i) == ms);
    }
}

/// Every item that was read is valid.
pub proof fn lemma_items_valid<T: Codec>(items: Seq<Tree>, i: int, done: Seq<T::Model>)
    requires
        0 <= i,
        forall|j: int| 0 <= j < done.len() ==> T::valid(#[trigger] done[j]),
    ensures
        decode_items::<T>(items, i, done) matches Ok(ms) ==> forall|j: int|
            0 <= j < ms.len() ==> T::valid(#[trigger] ms[j]),
    decreases items.len() - i,
{
    if i < items.len() {
        T::lemma_decode_valid(items[i]);
        if let Ok(m) = T::decode(items[i]) {
            lemma_items_valid::<T>(items, i + 1, done.push(m));
        }
    }
}

impl<T: Codec> Codec for Vec<T> {
    type Model = Seq<T::Model>;

    open spec fn model(&self) -> Seq<T::Model> {
        models::<T>(self@)
    }

    open spec fn valid(m: Seq<T::Model>) -> bool {
        forall|j: int| 0 <= j < m.len() ==> T::valid(#[trigger] m[j])
    }

    open spec fn default_model() -> Seq<T::Model> {
        Seq::empty()
    }

    open spec fn decode(tree: Tree) -> Result<Seq<T::Model>, Fault> {
        match tree {
            Tree::Null => Ok(Seq::empty()),
            Tree::List(items) => decode_items::<T>(items, 0, Seq::empty()),
            _ => Err(Fault::TypeMismatch(Expected::List)),
        }
    }

    open spec fn encode(m: Seq<T::Model>) -> Tree {
        Tree::List(encode_items::<T>(m))
    }

    proof fn lemma_default_valid() {
    }

    proof fn lemma_decode_valid(tree: Tree) {
        if let Tree::List(items) = tree {
            lemma_items_valid::<T>(items, 0, Seq::empty());
        }
    }

    proof fn lemma_round_trip(m: Seq<T::Model>) {
        assert(m.take(0) == Seq::<T::Model>::empty());
        lemma_items_round_trip::<T>(m, 0);
    }

    proof fn lemma_encode_orderly(m: Seq<T::Model>) {
        let items = encode_items::<T>(m);
        assert forall|i: int| 0 <= i < items.len() implies orderly(#[trigger] items[i]) by {
            T::lemma_encode_orderly(m[i]);
        }
    }

    fn default_value() -> (r: Vec<T>) {
        let r: Vec<T> = Vec::new();
        assert(models::<T>(r@) == Seq::<T::Model>::empty());
        r
    }

    fn from_node(node: &Node) -> (r: Result<Vec<T>, ConfigError>) {
        match node {
            Node::Null => {
                let r: Vec<T> = Vec::new();
                assert(models::<T>(r@) == Seq::<T::Model>::empty());
                Ok(r)
            },
            Node::List(items) => {
                let mut values: Vec<T> = Vec::new();
                let mut i: usize = 0;
                proof {
                    lemma_list_tree(*items);
                    assert(models::<T>(values@) == Seq::<T::Model>::empty());
                }
                while i < items.len()
                    invariant
                        i <= items.len(),
                        node@ == Tree::List(trees(items@)),
                        decode_items::<T>(trees(items@), 0, Seq::empty()) == decode_items::<T>(
                            trees(items@),
                            i as int,
                            models::<T>(values@),
                        ),
                    decreases items.len() - i,
                {
                    match T::from_node(&items[i]) {
                        Ok(value) => {
                            let ghost before = models::<T>(values@);
                            values.push(value);
                            assert(models::<T>(values@) == before.push(value.model()));
                        },
                        Err(e) => {
                            return Err(e);
                        },
                    }
                    i += 1;
                }
                Ok(values)
            },
            _ => Err(ConfigError::TypeMismatch(Expected::List)),
        }
    }

    fn to_node(&self) -> (node: Node) {
        let mut nodes: Vec<Node> = Vec::new();
        let mut i: usize = 0;
        while i < self.len()
            invariant
                i <= self.len(),
                nodes.len() == i,
                forall|j: int| 0 <= j < i ==> (#[trigger] nodes[j])@ == T::encode(self[j].model()),
            decreases self.len() - i,
        {
            let node = self[i].to_node();
            nodes.push(node);
            i += 1;
        }
        proof {
            lemma_list_tree(nodes);
            assert(trees(nodes@) =~= encode_items::<T>(models::<T>(self@)));
        }
        Node::List(nodes)
    }
}

impl<T: Codec> Lenient for Vec<T> {
    proof fn lemma_null_is_default() {
    }
}

/// The value under the first key of the entries, from position `i` on, that
/// is the string `name`.
pub open spec fn find_from(entries: Seq<(Tree, Tree)>, name: Seq<char>, i: int) -> Option<Tree>
    decreases entries.len() - i,
{
    if i < 0 || i >= entries.len() {
        None
    } else if entries[i].0 == Tree::Text(name) {
        Some(entries[i].1)
    } else {
        find_from(entries, name, i + 1)
    }
}

/// The value under the first key of a mapping that is the string `name`.
pub open spec fn find(entries: Seq<(Tree, Tree)>, name: Seq<char>) -> Option<Tree> {
    find_from(entries, name, 0)
}

/// What a field of a section is read as: the default where the section has
/// no such key, else what the value under the key is read as, an explicit
/// null too.
pub open spec fn decode_field<T: Codec>(entries: Seq<(Tree, Tree)>, name: Seq<char>) -> Result<
    T::Model,
    Fault,
> {
    match find(entries, name) {
        None => Ok(T::default_model()),
        Some(tree) => T::decode(tree),
    }
}

/// A key that is at position `k`, and at none before it, is found there.
pub proof fn lemma_find_at(entries: Seq<(Tree, Tree)>, name: Seq<char>, k: int, i: int)
    requires
        0 <= i <= k < entries.len(),
        entries[k].0 == Tree::Text(name),
        forall|j: int| 0 <= j < k ==> (#[trigger] entries[j]).0 != Tree::Text(name),
    ensures
        find_from(entries, name, i) == Some(entries[k].1),
    decreases k - i,
{
    if i < k {
        lemma_find_at(entries, name, k, i + 1);
    }
}

/// A key that no entry has is not found.
pub proof fn lemma_find_none(entries: Seq<(Tree, Tree)>, name: Seq<char>, i: int)
    requires
        0 <= i,
        forall|j: int| 0 <= j < entries.len() ==> (#[trigger] entries[j]).0 != Tree::Text(name),
    ensures
        find_from(entries, name, i) is None,
    decreases entries.len() - i,
{
    if i < entries.len() {
        lemma_find_none(entries, name, i + 1);
    }
}

/// Whatever a field is read as is valid.
pub proof fn lemma_field_valid<T: Codec>(entries: Seq<(Tree, Tree)>, name: Seq<char>)
    ensures
        decode_field::<T>(entries, name) matches Ok(m) ==> T::valid(m),
{
    T::lemma_default_valid();
    if let Some(tree) = find(entries, name) {
        T::lemma_decode_valid(tree);
    }
}

/// A valid value written under a key at position `k`, and under none before
/// it, is read back from there.
pub proof fn lemma_field_round_trip<T: Codec>(
    entries: Seq<(Tree, Tree)>,
    name: Seq<char>,
    k: int,
    m: T::Model,
)
    requires
        0 <= k < entries.len(),
        entries[k] == (Tree::Text(name), T::encode(m)),
        forall|j: int| 0 <= j < k ==> (#[trigger] entries[j]).0 != Tree::Text(name),
        T::valid(m),
    ensures
        decode_field::<T>(entries, name) == Ok::<T::Model, Fault>(m),
{
    lemma_find_at(entries, name, k, 0);
    T::lemma_round_trip(m);
}

/// Finds the value under the first key of a mapping that is the string
/// `name`.
pub fn lookup<'a>(entries: &'a Vec<(Node, Node)>, name: &str) -> (r: Option<&'a Node>)
    ensures
        match r {
            Some(node) => find(tree_pairs(entries@), name@) == Some(node@),
            None => find(tree_pairs(entries@), name@) is None,
        },
{
    let mut i: usize = 0;
    while i < entries.len()
        invariant
            i <= entries.len(),
            find(tree_pairs(entries@), name@) == find_from(tree_pairs(entries@), name@, i as int),
        decreases entries.len() - i,
    {
        let hit = match &entries[i].0 {
            Node::Text(key) => same_text(key.as_str(), name),
            _ => false,
        };
        if hit {
            return Some(&entries[i].1);
        }
        i += 1;
    }
    None
}

/// Reads a field of a section.
pub fn read_field<T: Codec>(entries: &Vec<(Node, Node)>, name: &str) -> (r: Result<T, ConfigError>)
    ensures
        outcome(r) == decode_field::<T>(tree_pairs(entries@), name@),
{
    match lookup(entries, name) {
        None => Ok(T::default_value()),
        Some(node) => T::from_node(node),
    }
}

/// An entry of a section: the field's name as the key, then the value.
pub fn entry(name: &str, value: Node) -> (r: (Node, Node))
    ensures
        r.0@ == Tree::Text(name@),
        r.1@ == value@,
{
    (Node::Text(String::from_str(name)), value)
}

} // verus!
