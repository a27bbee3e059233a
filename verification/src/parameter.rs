//! Loosely typed values, and bags of them under string keys.

use crate::codec::{Codec, Lenient, Solid};
use crate::error::{ConfigError, Expected, Fault};
use crate::table::Table;
use crate::tree::{Node, Tree};
use vstd::prelude::*;

verus! {

/// A loosely typed value: exactly one of five kinds.
#[derive(Debug, PartialEq)]
pub enum Parameter {
    /// An integer that fits 64 signed bits.
    Integer(i64),
    /// Any other number, by the text that writes it.
    Double(String),
    /// A string.
    String(String),
    /// A boolean.
    Boolean(bool),
    /// The explicit null.
    Null,
}

/// `Parameter` as a mathematical value. Two are equal only where they are of
/// the same kind and hold the same value: no integer equals a `Double`.
pub enum ParameterModel {
    /// See `Parameter::Integer`.
    Integer(i64),
    /// See `Parameter::Double`.
    Double(Seq<char>),
    /// See `Parameter::String`.
    String(Seq<char>),
    /// See `Parameter::Boolean`.
    Boolean(bool),
    /// See `Parameter::Null`.
    Null,
}

impl Codec for Parameter {
    type Model = ParameterModel;

    open spec fn model(&self) -> ParameterModel {
        match self {
            Parameter::Integer(i) => ParameterModel::Integer(*i),
            Parameter::Double(t) => ParameterModel::Double(t@),
            Parameter::String(t) => ParameterModel::String(t@),
            Parameter::Boolean(b) => ParameterModel::Boolean(*b),
            Parameter::Null => ParameterModel::Null,
        }
    }

    open spec fn valid(m: ParameterModel) -> bool {
        true
    }

    open spec fn default_model() -> ParameterModel {
        ParameterModel::Null
    }

    /// The kinds are tried in the order integer, other number, string,
    /// boolean, null, and the first that fits is taken. A scalar fits
    /// exactly one of them; a sequence, a mapping or a tagged document fits
    /// none.
    open spec fn decode(tree: Tree) -> Result<ParameterModel, Fault> {
        match tree {
            Tree::Int(i) => Ok(ParameterModel::Integer(i)),
            Tree::Real(t) => Ok(ParameterModel::Double(t)),
            Tree::Text(t) => Ok(ParameterModel::String(t)),
            Tree::Bool(b) => Ok(ParameterModel::Boolean(b)),
            Tree::Null => Ok(ParameterModel::Null),
            _ => Err(Fault::TypeMismatch(Expected::Scalar)),
        }
    }

    open spec fn encode(m: ParameterModel) -> Tree {
        match m {
            ParameterModel::Integer(i) => Tree::Int(i),
            ParameterModel::Double(t) => Tree::Real(t),
            ParameterModel::String(t) => Tree::Text(t),
            ParameterModel::Boolean(b) => Tree::Bool(b),
            ParameterModel::Null => Tree::Null,
        }
    }

    proof fn lemma_default_valid() {
    }

    proof fn lemma_decode_valid(tree: Tree) {
    }

    proof fn lemma_round_trip(m: ParameterModel) {
    }

    proof fn lemma_encode_orderly(m: ParameterModel) {
    }

    fn default_value() -> (r: Parameter) {
        Parameter::Null
    }

    fn from_node(node: &Node) -> (r: Result<Parameter, ConfigError>) {
        match node {
            Node::Int(i) => Ok(Parameter::Integer(*i)),
            Node::Real(t) => Ok(Parameter::Double(t.clone())),
            Node::Text(t) => Ok(Parameter::String(t.clone())),
            Node::Bool(b) => Ok(Parameter::Boolean(*b)),
            Node::Null => Ok(Parameter::Null),
            _ => Err(ConfigError::TypeMismatch(Expected::Scalar)),
        }
    }

    fn to_node(&self) -> (node: Node) {
        match self {
            Parameter::Integer(i) => Node::Int(*i),
            Parameter::Double(t) => Node::Real(t.clone()),
            Parameter::String(t) => Node::Text(t.clone()),
            Parameter::Boolean(b) => Node::Bool(*b),
            Parameter::Null => Node::Null,
        }
    }
}

impl Lenient for Parameter {
    proof fn lemma_null_is_default() {
    }
}

/// A bag of loosely typed values. It takes every key of its mapping, known
/// or not, and is written as that mapping.
#[derive(Debug, PartialEq)]
pub struct Parameters {
    /// The values under their keys.
    pub parameters: Table<Parameter>,
}

impl Codec for Parameters {
    type Model = Seq<(Seq<char>, ParameterModel)>;

    open spec fn model(&self) -> Seq<(Seq<char>, ParameterModel)> {
        self.parameters.model()
    }

    open spec fn valid(m: Seq<(Seq<char>, ParameterModel)>) -> bool {
        Table::<Parameter>::valid(m)
    }

    open spec fn default_model() -> Seq<(Seq<char>, ParameterModel)> {
        Table::<Parameter>::default_model()
    }

    open spec fn decode(tree: Tree) -> Result<Seq<(Seq<char>, ParameterModel)>, Fault> {
        Table::<Parameter>::decode(tree)
    }

    open spec fn encode(m: Seq<(Seq<char>, ParameterModel)>) -> Tree {
        Table::<Parameter>::encode(m)
    }

    proof fn lemma_default_valid() {
        Table::<Parameter>::lemma_default_valid();
    }

    proof fn lemma_decode_valid(tree: Tree) {
        Table::<Parameter>::lemma_decode_valid(tree);
    }

    proof fn lemma_round_trip(m: Seq<(Seq<char>, ParameterModel)>) {
        Table::<Parameter>::lemma_round_trip(m);
    }

    proof fn lemma_encode_orderly(m: Seq<(Seq<char>, ParameterModel)>) {
        Table::<Parameter>::lemma_encode_orderly(m);
    }

    fn default_value() -> (r: Parameters) {
        Parameters { parameters: Table::default_value() }
    }

    fn from_node(node: &Node) -> (r: Result<Parameters, ConfigError>) {
        match Table::<Parameter>::from_node(node) {
            Ok(parameters) => Ok(Parameters { parameters }),
            Err(e) => Err(e),
        }
    }

    fn to_node(&self) -> (node: Node) {
        self.parameters.to_node()
    }
}

impl Lenient for Parameters {
    proof fn lemma_null_is_default() {
    }
}

impl Solid for Parameters {
    proof fn lemma_never_null(m: Seq<(Seq<char>, ParameterModel)>) {
    }
}

} // verus!
