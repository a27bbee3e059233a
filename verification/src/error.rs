//! What can go wrong while a configuration is read or written.

use vstd::prelude::*;

verus! {

/// What a place in the document was expected to hold.
#[derive(Clone, Copy, Debug, PartialEq, Eq, Structural)]
pub enum Expected {
    /// A scalar that can be read as a string.
    Text,
    /// A boolean.
    Boolean,
    /// An integer within the range of its field.
    Integer,
    /// A scalar: an integer, another number, a string, a boolean or null.
    Scalar,
    /// A sequence.
    List,
    /// A mapping.
    Dict,
    /// A mapping key that can be read as a string.
    Key,
    /// A document that can be written: no tag, every number in the
    /// spelling the writer uses, string keys in ascending order.
    Writable,
}

/// Why a configuration could not be read or written.
#[derive(Debug, PartialEq)]
pub enum ConfigError {
    /// The text is not a well-formed document. Carries the reader's message,
    /// which names the line and column where it has one.
    Syntax(String),
    /// A duration field holds a text that is no duration. Carries the text.
    InvalidDuration(String),
    /// A place in the document does not hold what its field needs.
    TypeMismatch(Expected),
    /// A section selects no variant. Kept for a stricter policy: the storage
    /// section falls back to its default and never reports this.
    UnresolvableVariant,
    /// The writer refused the document. Carries the writer's message.
    Emit(String),
}

/// An error as a mathematical value.
pub enum Fault {
    /// See `ConfigError::Syntax`.
    Syntax(Seq<char>),
    /// See `ConfigError::InvalidDuration`.
    InvalidDuration(Seq<char>),
    /// See `ConfigError::TypeMismatch`.
    TypeMismatch(Expected),
    /// See `ConfigError::UnresolvableVariant`.
    UnresolvableVariant,
    /// See `ConfigError::Emit`.
    Emit(Seq<char>),
}

impl View for ConfigError {
    type V = Fault;

    open spec fn view(&self) -> Fault {
        match self {
            ConfigError::Syntax(message) => Fault::Syntax(message@),
            ConfigError::InvalidDuration(text) => Fault::InvalidDuration(text@),
            ConfigError::TypeMismatch(expected) => Fault::TypeMismatch(*expected),
            ConfigError::UnresolvableVariant => Fault::UnresolvableVariant,
            ConfigError::Emit(message) => Fault::Emit(message@),
        }
    }
}

impl Expected {
    /// The words that name what was expected.
    pub open spec fn words(self) -> Seq<char> {
        match self {
            Expected::Text => "a string"@,
            Expected::Boolean => "a boolean"@,
            Expected::Integer => "an integer in range"@,
            Expected::Scalar => "a scalar"@,
            Expected::List => "a sequence"@,
            Expected::Dict => "a mapping"@,
            Expected::Key => "a key that reads as a string"@,
            Expected::Writable => "a document that can be written"@,
        }
    }

    /// The words that name what was expected.
    pub fn name(&self) -> (r: &'static str)
        ensures
            r@ == self.words(),
    {
        match self {
            Expected::Text => "a string",
            Expected::Boolean => "a boolean",
            Expected::Integer => "an integer in range",
            Expected::Scalar => "a scalar",
            Expected::List => "a sequence",
            Expected::Dict => "a mapping",
            Expected::Key => "a key that reads as a string",
            Expected::Writable => "a document that can be written",
        }
    }
}

impl Fault {
    /// The error in words.
    pub open spec fn message(self) -> Seq<char> {
        match self {
            Fault::Syntax(message) => "syntax error: "@ + message,
            Fault::InvalidDuration(text) => "invalid duration: "@ + text,
            Fault::TypeMismatch(expected) => "type mismatch: expected "@ + expected.words(),
            Fault::UnresolvableVariant => "no variant can be resolved"@,
            Fault::Emit(message) => "cannot write: "@ + message,
        }
    }
}

impl ConfigError {
    /// The error in words, for people to read.
    pub fn message(&self) -> (r: String)
        ensures
            r@ == self@.message(),
    {
        match self {
            ConfigError::Syntax(message) => {
                let mut r = String::from_str("syntax error: ");
                r.append(message.as_str());
                r
            },
            ConfigError::InvalidDuration(text) => {
                let mut r = String::from_str("invalid duration: ");
                r.append(text.as_str());
                r
            },
            ConfigError::TypeMismatch(expected) => {
                let mut r = String::from_str("type mismatch: expected ");
                r.append(expected.name());
                r
            },
            ConfigError::UnresolvableVariant => String::from_str("no variant can be resolved"),
            ConfigError::Emit(message) => {
                let mut r = String::from_str("cannot write: ");
                r.append(message.as_str());
                r
            },
        }
    }
}

} // verus!
