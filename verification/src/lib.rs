//! Configuration of a container-image registry.
//!
//! A configuration is written by people as a YAML document. This crate turns
//! such a document into a typed [`configuration::Configuration`] and writes a
//! configuration back as a document, so that what was written reads back as
//! the same configuration.
//!
//! The work is split in three layers:
//!
//! * [`yaml`] is the boundary to the YAML reader and writer. It turns text
//!   into a [`tree::Node`] and a node into text, and is the only place that
//!   knows the YAML crate.
//! * [`codec`] says what it means for a type to be read from a node and
//!   written to one, and states the laws that every such type obeys: what is
//!   read is valid, and a valid value that is written and read again is
//!   itself. [`table`], [`duration`], [`parameter`] and [`storage`] hold the
//!   types with rules of their own.
//! * The remaining modules hold the sections of the configuration, one
//!   record type for each, and [`configuration`] puts them together.
//!
//! Specifications speak of mathematical values: a node stands for a
//! [`tree::Tree`], and every configuration type has a model.

pub mod codec;
pub mod compatibility;
pub mod configuration;
pub mod duration;
pub mod error;
pub mod health;
pub mod http;
pub mod log;
pub mod mail;
pub mod middleware;
pub mod notifications;
pub mod parameter;
pub mod policy;
pub mod proxy;
pub mod redis;
pub mod reporting;
pub mod storage;
pub mod table;
pub mod text;
pub mod tree;
pub mod validation;
pub mod yaml;
