//! Notification of events to endpoints.

use crate::codec::{decode_field, entry, find_from, lemma_field_valid, read_field, Codec, Lenient};
use crate::duration::Duration;
use crate::error::{ConfigError, Expected, Fault};
use crate::http::Header;
use crate::table::Table;
use crate::text::{key_before, lemma_ascii_before};
use crate::tree::{
    lemma_ascend_by_neighbours, lemma_dict_tree, orderly, text_keys_ascend, tree_pairs, Node, Tree,
};
use vstd::prelude::*;

verus! {

/// What events carry.
#[derive(Debug, PartialEq)]
pub struct Events {
    /// Whether events carry references.
    pub include_references: bool,
}

/// `Events` as a mathematical value.
pub struct EventsModel {
    pub include_references: bool,
}

impl Codec for Events {
    type Model = EventsModel;

    open spec fn model(&self) -> EventsModel {
        EventsModel {
            include_references: self.include_references.model(),
        }
    }

    open spec fn valid(m: EventsModel) -> bool {
        &&& bool::valid(m.include_references)
    }

    open spec fn default_model() -> EventsModel {
        EventsModel {
            include_references: bool::default_model(),
        }
    }

    /// An explicit null reads as the default. A mapping is read field by
    /// field: a field whose key is missing takes its default, keys that
    /// name no field are passed over, and the first field in the order below
    /// that cannot be read decides the error. Anything else is no section.
    open spec fn decode(tree: Tree) -> Result<EventsModel, Fault> {
        match tree {
            Tree::Null => Ok(Self::default_model()),
            Tree::Dict(entries) => {
                let include_references = decode_field::<bool>(entries, "includereferences"@);
                if include_references is Err {
                    Err(include_references->Err_0)
                } else {
                    Ok(
                        EventsModel {
                            include_references: include_references->Ok_0,
                        },
                    )
                }
            },
            _ => Err(Fault::TypeMismatch(Expected::Dict)),
        }
    }

    /// A mapping with one entry for every field, in ascending key order.
    open spec fn encode(m: EventsModel) -> Tree {
        Tree::Dict(
            seq![
                (Tree::Text("includereferences"@), bool::encode(m.include_references)),
            ],
        )
    }

    proof fn lemma_default_valid() {
        bool::lemma_default_valid();
    }

    proof fn lemma_decode_valid(tree: Tree) {
        if let Tree::Dict(entries) = tree {
            lemma_field_valid::<bool>(entries, "includereferences"@);
        } else {
            Self::lemma_default_valid();
        }
    }

    proof fn lemma_round_trip(m: EventsModel) {
        let entries = Self::encode(m)->Dict_0;
        assert(decode_field::<bool>(
            entries,
            "includereferences"@,
        ) == Ok::<bool, Fault>(m.include_references)) by {
            reveal_strlit("includereferences");
            reveal_with_fuel(find_from, 2);
            bool::lemma_round_trip(m.include_references);
        }
    }

    proof fn lemma_encode_orderly(m: EventsModel) {
        let entries = Self::encode(m)->Dict_0;
        assert(text_keys_ascend(entries)) by {
            lemma_ascend_by_neighbours(entries);
        }
        assert forall|i: int| 0 <= i < entries.len() implies orderly(
            (#[trigger] entries[i]).1,
        ) by {
            bool::lemma_encode_orderly(m.include_references);
        }
    }

    fn default_value() -> (r: Events) {
        Events {
            include_references: bool::default_value(),
        }
    }

    fn from_node(node: &Node) -> (r: Result<Events, ConfigError>) {
        match node {
            Node::Null => Ok(Self::default_value()),
            Node::Dict(entries) => {
                proof {
                    lemma_dict_tree(*entries);
                }
                let include_references = read_field::<bool>(entries, "includereferences")?;
                Ok(Events { include_references })
            },
            _ => Err(ConfigError::TypeMismatch(Expected::Dict)),
        }
    }

    fn to_node(&self) -> (node: Node) {
        let mut entries: Vec<(Node, Node)> = Vec::new();
        entries.push(entry("includereferences", self.include_references.to_node()));
        proof {
            lemma_dict_tree(entries);
            assert(tree_pairs(entries@) =~= Self::encode(self.model())->Dict_0);
        }
        Node::Dict(entries)
    }
}

impl Lenient for Events {
    proof fn lemma_null_is_default() {
    }
}

/// Events that an endpoint is not told of.
#[derive(Debug, PartialEq)]
pub struct Ignore {
    /// Media types that are ignored.
    pub media_types: Vec<String>,
    /// Actions that are ignored.
    pub actions: Vec<String>,
}

/// `Ignore` as a mathematical value.
pub struct IgnoreModel {
    pub media_types: Seq<Seq<char>>,
    pub actions: Seq<Seq<char>>,
}

impl Codec for Ignore {
    type Model = IgnoreModel;

    open spec fn model(&self) -> IgnoreModel {
        IgnoreModel {
            media_types: self.media_types.model(),
            actions: self.actions.model(),
        }
    }

    open spec fn valid(m: IgnoreModel) -> bool {
        &&& Vec::<String>::valid(m.media_types)
        &&& Vec::<String>::valid(m.actions)
    }

    open spec fn default_model() -> IgnoreModel {
        IgnoreModel {
            media_types: Vec::<String>::default_model(),
            actions: Vec::<String>::default_model(),
        }
    }

    /// An explicit null reads as the default. A mapping is read field by
    /// field: a field whose key is missing takes its default, keys that
    /// name no field are passed over, and the first field in the order below
    /// that cannot be read decides the error. Anything else is no section.
    open spec fn decode(tree: Tree) -> Result<IgnoreModel, Fault> {
        match tree {
            Tree::Null => Ok(Self::default_model()),
            Tree::Dict(entries) => {
                let media_types = decode_field::<Vec<String>>(entries, "mediatypes"@);
                let actions = decode_field::<Vec<String>>(entries, "actions"@);
                if media_types is Err {
                    Err(media_types->Err_0)
                } else if actions is Err {
                    Err(actions->Err_0)
                } else {
                    Ok(
                        IgnoreModel {
                            media_types: media_types->Ok_0,
                            actions: actions->Ok_0,
                        },
                    )
                }
            },
            _ => Err(Fault::TypeMismatch(Expected::Dict)),
        }
    }

    /// A mapping with one entry for every field, in ascending key order.
    open spec fn encode(m: IgnoreModel) -> Tree {
        Tree::Dict(
            seq![
                (Tree::Text("actions"@), Vec::<String>::encode(m.actions)),
                (Tree::Text("mediatypes"@), Vec::<String>::encode(m.media_types)),
            ],
        )
    }

    proof fn lemma_default_valid() {
        Vec::<String>::lemma_default_valid();
    }

    proof fn lemma_decode_valid(tree: Tree) {
        if let Tree::Dict(entries) = tree {
            lemma_field_valid::<Vec<String>>(entries, "mediatypes"@);
            lemma_field_valid::<Vec<String>>(entries, "actions"@);
        } else {
            Self::lemma_default_valid();
        }
    }

    proof fn lemma_round_trip(m: IgnoreModel) {
        let entries = Self::encode(m)->Dict_0;
        assert(decode_field::<Vec<String>>(
            entries,
            "actions"@,
        ) == Ok::<Seq<Seq<char>>, Fault>(m.actions)) by {
            reveal_strlit("actions");
            reveal_with_fuel(find_from, 2);
            Vec::<String>::lemma_round_trip(m.actions);
        }
        assert(decode_field::<Vec<String>>(
            entries,
            "mediatypes"@,
        ) == Ok::<Seq<Seq<char>>, Fault>(m.media_types)) by {
            reveal_strlit("actions");
            reveal_strlit("mediatypes");
            assert("actions"@.len() == 7);
            assert("mediatypes"@.len() == 10);
            reveal_with_fuel(find_from, 3);
            Vec::<String>::lemma_round_trip(m.media_types);
        }
    }

    proof fn lemma_encode_orderly(m: IgnoreModel) {
        let entries = Self::encode(m)->Dict_0;
        assert(text_keys_ascend(entries)) by {
            assert(key_before("actions"@, "mediatypes"@)) by {
                reveal_strlit("actions");
                reveal_strlit("mediatypes");
                lemma_ascii_before("actions"@, "mediatypes"@, 0);
            }
            lemma_ascend_by_neighbours(entries);
        }
        assert forall|i: int| 0 <= i < entries.len() implies orderly(
            (#[trigger] entries[i]).1,
        ) by {
            Vec::<String>::lemma_encode_orderly(m.media_types);
            Vec::<String>::lemma_encode_orderly(m.actions);
        }
    }

    fn default_value() -> (r: Ignore) {
        Ignore {
            media_types: Vec::<String>::default_value(),
            actions: Vec::<String>::default_value(),
        }
    }

    fn from_node(node: &Node) -> (r: Result<Ignore, ConfigError>) {
        match node {
            Node::Null => Ok(Self::default_value()),
            Node::Dict(entries) => {
                proof {
                    lemma_dict_tree(*entries);
                }
                let media_types = read_field::<Vec<String>>(entries, "mediatypes")?;
                let actions = read_field::<Vec<String>>(entries, "actions")?;
                Ok(Ignore { media_types, actions })
            },
            _ => Err(ConfigError::TypeMismatch(Expected::Dict)),
        }
    }

    fn to_node(&self) -> (node: Node) {
        let mut entries: Vec<(Node, Node)> = Vec::new();
        entries.push(entry("actions", self.actions.to_node()));
        entries.push(entry("mediatypes", self.media_types.to_node()));
        proof {
            lemma_dict_tree(entries);
            assert(tree_pairs(entries@) =~= Self::encode(self.model())->Dict_0);
        }
        Node::Dict(entries)
    }
}

impl Lenient for Ignore {
    proof fn lemma_null_is_default() {
    }
}

/// An endpoint that is told of events.
#[derive(Debug, PartialEq)]
pub struct EndPoint {
    /// Name of the endpoint.
    pub name: String,
    /// Whether the endpoint is switched off.
    pub disabled: bool,
    /// Where events are posted.
    pub url: String,
    /// Headers sent with every post.
    pub headers: Header,
    /// How long a post may take.
    pub timeout: Duration,
    /// Failures after which the endpoint backs off.
    pub threshold: u32,
    /// How long the endpoint backs off.
    pub backoff: Duration,
    /// Media types that are ignored.
    pub ignore_media_type: Vec<String>,
    /// Events that are ignored.
    pub ignore: Ignore,
}

/// `EndPoint` as a mathematical value.
pub struct EndPointModel {
    pub name: Seq<char>,
    pub disabled: bool,
    pub url: Seq<char>,
    pub headers: Seq<(Seq<char>, Seq<Seq<char>>)>,
    pub timeout: Duration,
    pub threshold: u32,
    pub backoff: Duration,
    pub ignore_media_type: Seq<Seq<char>>,
    pub ignore: IgnoreModel,
}

impl Codec for EndPoint {
    type Model = EndPointModel;

    open spec fn model(&self) -> EndPointModel {
        EndPointModel {
            name: self.name.model(),
            disabled: self.disabled.model(),
            url: self.url.model(),
            headers: self.headers.model(),
            timeout: self.timeout.model(),
            threshold: self.threshold.model(),
            backoff: self.backoff.model(),
            ignore_media_type: self.ignore_media_type.model(),
            ignore: self.ignore.model(),
        }
    }

    open spec fn valid(m: EndPointModel) -> bool {
        &&& String::valid(m.name)
        &&& bool::valid(m.disabled)
        &&& String::valid(m.url)
        &&& Table::<Vec<String>>::valid(m.headers)
        &&& Duration::valid(m.timeout)
        &&& u32::valid(m.threshold)
        &&& Duration::valid(m.backoff)
        &&& Vec::<String>::valid(m.ignore_media_type)
        &&& Ignore::valid(m.ignore)
    }

    open spec fn default_model() -> EndPointModel {
        EndPointModel {
            name: String::default_model(),
            disabled: bool::default_model(),
            url: String::default_model(),
            headers: Table::<Vec<String>>::default_model(),
            timeout: Duration::default_model(),
            threshold: u32::default_model(),
            backoff: Duration::default_model(),
            ignore_media_type: Vec::<String>::default_model(),
            ignore: Ignore::default_model(),
        }
    }

    /// An explicit null reads as the default. A mapping is read field by
    /// field: a field whose key is missing takes its default, keys that
    /// name no field are passed over, and the first field in the order below
    /// that cannot be read decides the error. Anything else is no section.
    open spec fn decode(tree: Tree) -> Result<EndPointModel, Fault> {
        match tree {
            Tree::Null => Ok(Self::default_model()),
            Tree::Dict(entries) => {
                let name = decode_field::<String>(entries, "name"@);
                let disabled = decode_field::<bool>(entries, "disabled"@);
                let url = decode_field::<String>(entries, "url"@);
                let headers = decode_field::<Table<Vec<String>>>(entries, "headers"@);
                let timeout = decode_field::<Duration>(entries, "timeout"@);
                let threshold = decode_field::<u32>(entries, "threshold"@);
                let backoff = decode_field::<Duration>(entries, "backoff"@);
                let ignore_media_type = decode_field::<Vec<String>>(entries, "ignoredmediatypes"@);
                let ignore = decode_field::<Ignore>(entries, "ignore"@);
                if name is Err {
                    Err(name->Err_0)
                } else if disabled is Err {
                    Err(disabled->Err_0)
                } else if url is Err {
                    Err(url->Err_0)
                } else if headers is Err {
                    Err(headers->Err_0)
                } else if timeout is Err {
                    Err(timeout->Err_0)
                } else if threshold is Err {
                    Err(threshold->Err_0)
                } else if backoff is Err {
                    Err(backoff->Err_0)
                } else if ignore_media_type is Err {
                    Err(ignore_media_type->Err_0)
                } else if ignore is Err {
                    Err(ignore->Err_0)
                } else {
                    Ok(
                        EndPointModel {
                            name: name->Ok_0,
                            disabled: disabled->Ok_0,
                            url: url->Ok_0,
                            headers: headers->Ok_0,
                            timeout: timeout->Ok_0,
                            threshold: threshold->Ok_0,
                            backoff: backoff->Ok_0,
                            ignore_media_type: ignore_media_type->Ok_0,
                            ignore: ignore->Ok_0,
                        },
                    )
                }
            },
            _ => Err(Fault::TypeMismatch(Expected::Dict)),
        }
    }

    /// A mapping with one entry for every field, in ascending key order.
    open spec fn encode(m: EndPointModel) -> Tree {
        Tree::Dict(
            seq![
                (Tree::Text("backoff"@), Duration::encode(m.backoff)),
                (Tree::Text("disabled"@), bool::encode(m.disabled)),
                (Tree::Text("headers"@), Table::<Vec<String>>::encode(m.headers)),
                (Tree::Text("ignore"@), Ignore::encode(m.ignore)),
                (Tree::Text("ignoredmediatypes"@), Vec::<String>::encode(m.ignore_media_type)),
                (Tree::Text("name"@), String::encode(m.name)),
                (Tree::Text("threshold"@), u32::encode(m.threshold)),
                (Tree::Text("timeout"@), Duration::encode(m.timeout)),
                (Tree::Text("url"@), String::encode(m.url)),
            ],
        )
    }

    proof fn lemma_default_valid() {
        String::lemma_default_valid();
        bool::lemma_default_valid();
        Table::<Vec<String>>::lemma_default_valid();
        Duration::lemma_default_valid();
        u32::lemma_default_valid();
        Vec::<String>::lemma_default_valid();
        Ignore::lemma_default_valid();
    }

    proof fn lemma_decode_valid(tree: Tree) {
        if let Tree::Dict(entries) = tree {
            lemma_field_valid::<String>(entries, "name"@);
            lemma_field_valid::<bool>(entries, "disabled"@);
            lemma_field_valid::<String>(entries, "url"@);
            lemma_field_valid::<Table<Vec<String>>>(entries, "headers"@);
            lemma_field_valid::<Duration>(entries, "timeout"@);
            lemma_field_valid::<u32>(entries, "threshold"@);
            lemma_field_valid::<Duration>(entries, "backoff"@);
            lemma_field_valid::<Vec<String>>(entries, "ignoredmediatypes"@);
            lemma_field_valid::<Ignore>(entries, "ignore"@);
        } else {
            Self::lemma_default_valid();
        }
    }

    proof fn lemma_round_trip(m: EndPointModel) {
        let entries = Self::encode(m)->Dict_0;
        assert(decode_field::<Duration>(
            entries,
            "backoff"@,
        ) == Ok::<Duration, Fault>(m.backoff)) by {
            reveal_strlit("backoff");
            reveal_with_fuel(find_from, 2);
            Duration::lemma_round_trip(m.backoff);
        }
        assert(decode_field::<bool>(entries, "disabled"@) == Ok::<bool, Fault>(m.disabled)) by {
            reveal_strlit("backoff");
            reveal_strlit("disabled");
            assert("backoff"@.len() == 7);
            assert("disabled"@.len() == 8);
            reveal_with_fuel(find_from, 3);
            bool::lemma_round_trip(m.disabled);
        }
        assert(decode_field::<Table<Vec<String>>>(
            entries,
            "headers"@,
        ) == Ok::<Seq<(Seq<char>, Seq<Seq<char>>)>, Fault>(m.headers)) by {
            reveal_strlit("backoff");
            reveal_strlit("disabled");
            reveal_strlit("headers");
            assert("backoff"@[0] == 'b');
            assert("backoff"@.len() == 7);
            assert("headers"@[0] == 'h');
            assert("headers"@.len() == 7);
            assert("disabled"@.len() == 8);
            reveal_with_fuel(find_from, 4);
            Table::<Vec<String>>::lemma_round_trip(m.headers);
        }
        assert(decode_field::<Ignore>(
            entries,
            "ignore"@,
        ) == Ok::<IgnoreModel, Fault>(m.ignore)) by {
            reveal_strlit("backoff");
            reveal_strlit("disabled");
            reveal_strlit("headers");
            reveal_strlit("ignore");
            assert("ignore"@.len() == 6);
            assert("backoff"@[0] == 'b');
            assert("backoff"@.len() == 7);
            assert("headers"@[0] == 'h');
            assert("headers"@.len() == 7);
            assert("disabled"@.len() == 8);
            reveal_with_fuel(find_from, 5);
            Ignore::lemma_round_trip(m.ignore);
        }
        assert(decode_field::<Vec<String>>(
            entries,
            "ignoredmediatypes"@,
        ) == Ok::<Seq<Seq<char>>, Fault>(m.ignore_media_type)) by {
            reveal_strlit("backoff");
            reveal_strlit("disabled");
            reveal_strlit("headers");
            reveal_strlit("ignore");
            reveal_strlit("ignoredmediatypes");
            assert("ignore"@.len() == 6);
            assert("backoff"@[0] == 'b');
            assert("backoff"@.len() == 7);
            assert("headers"@[0] == 'h');
            assert("headers"@.len() == 7);
            assert("disabled"@.len() == 8);
            assert("ignoredmediatypes"@.len() == 17);
            reveal_with_fuel(find_from, 6);
            Vec::<String>::lemma_round_trip(m.ignore_media_type);
        }
        assert(decode_field::<String>(entries, "name"@) == Ok::<Seq<char>, Fault>(m.name)) by {
            reveal_strlit("backoff");
            reveal_strlit("disabled");
            reveal_strlit("headers");
            reveal_strlit("ignore");
            reveal_strlit("ignoredmediatypes");
            reveal_strlit("name");
            assert("name"@.len() == 4);
            assert("ignore"@.len() == 6);
            assert("backoff"@[0] == 'b');
            assert("backoff"@.len() == 7);
            assert("headers"@[0] == 'h');
            assert("headers"@.len() == 7);
            assert("disabled"@.len() == 8);
            assert("ignoredmediatypes"@.len() == 17);
            reveal_with_fuel(find_from, 7);
            String::lemma_round_trip(m.name);
        }
        assert(decode_field::<u32>(entries, "threshold"@) == Ok::<u32, Fault>(m.threshold)) by {
            reveal_strlit("backoff");
            reveal_strlit("disabled");
            reveal_strlit("headers");
            reveal_strlit("ignore");
            reveal_strlit("ignoredmediatypes");
            reveal_strlit("name");
            reveal_strlit("threshold");
            assert("name"@.len() == 4);
            assert("ignore"@.len() == 6);
            assert("backoff"@[0] == 'b');
            assert("backoff"@.len() == 7);
            assert("headers"@[0] == 'h');
            assert("headers"@.len() == 7);
            assert("disabled"@.len() == 8);
            assert("threshold"@.len() == 9);
            assert("ignoredmediatypes"@.len() == 17);
            reveal_with_fuel(find_from, 8);
            u32::lemma_round_trip(m.threshold);
        }
        assert(decode_field::<Duration>(
            entries,
            "timeout"@,
        ) == Ok::<Duration, Fault>(m.timeout)) by {
            reveal_strlit("backoff");
            reveal_strlit("disabled");
            reveal_strlit("headers");
            reveal_strlit("ignore");
            reveal_strlit("ignoredmediatypes");
            reveal_strlit("name");
            reveal_strlit("threshold");
            reveal_strlit("timeout");
            assert("name"@.len() == 4);
            assert("ignore"@.len() == 6);
            assert("backoff"@[0] == 'b');
            assert("backoff"@.len() == 7);
            assert("headers"@[0] == 'h');
            assert("headers"@.len() == 7);
            assert("timeout"@[0] == 't');
            assert("timeout"@.len() == 7);
            assert("disabled"@.len() == 8);
            assert("threshold"@.len() == 9);
            assert("ignoredmediatypes"@.len() == 17);
            reveal_with_fuel(find_from, 9);
            Duration::lemma_round_trip(m.timeout);
        }
        assert(decode_field::<String>(entries, "url"@) == Ok::<Seq<char>, Fault>(m.url)) by {
            reveal_strlit("backoff");
            reveal_strlit("disabled");
            reveal_strlit("headers");
            reveal_strlit("ignore");
            reveal_strlit("ignoredmediatypes");
            reveal_strlit("name");
            reveal_strlit("threshold");
            reveal_strlit("timeout");
            reveal_strlit("url");
            assert("url"@.len() == 3);
            assert("name"@.len() == 4);
            assert("ignore"@.len() == 6);
            assert("backoff"@[0] == 'b');
            assert("backoff"@.len() == 7);
            assert("headers"@[0] == 'h');
            assert("headers"@.len() == 7);
            assert("timeout"@[0] == 't');
            assert("timeout"@.len() == 7);
            assert("disabled"@.len() == 8);
            assert("threshold"@.len() == 9);
            assert("ignoredmediatypes"@.len() == 17);
            reveal_with_fuel(find_from, 10);
            String::lemma_round_trip(m.url);
        }
    }

    proof fn lemma_encode_orderly(m: EndPointModel) {
        let entries = Self::encode(m)->Dict_0;
        assert(text_keys_ascend(entries)) by {
            assert(key_before("backoff"@, "disabled"@)) by {
                reveal_strlit("backoff");
                reveal_strlit("disabled");
                lemma_ascii_before("backoff"@, "disabled"@, 0);
            }
            assert(key_before("disabled"@, "headers"@)) by {
                reveal_strlit("disabled");
                reveal_strlit("headers");
                lemma_ascii_before("disabled"@, "headers"@, 0);
            }
            assert(key_before("headers"@, "ignore"@)) by {
                reveal_strlit("headers");
                reveal_strlit("ignore");
                lemma_ascii_before("headers"@, "ignore"@, 0);
            }
            assert(key_before("ignore"@, "ignoredmediatypes"@)) by {
                reveal_strlit("ignore");
                reveal_strlit("ignoredmediatypes");
                lemma_ascii_before("ignore"@, "ignoredmediatypes"@, 6);
            }
            assert(key_before("ignoredmediatypes"@, "name"@)) by {
                reveal_strlit("ignoredmediatypes");
                reveal_strlit("name");
                lemma_ascii_before("ignoredmediatypes"@, "name"@, 0);
            }
            assert(key_before("name"@, "threshold"@)) by {
                reveal_strlit("name");
                reveal_strlit("threshold");
                lemma_ascii_before("name"@, "threshold"@, 0);
            }
            assert(key_before("threshold"@, "timeout"@)) by {
                reveal_strlit("threshold");
                reveal_strlit("timeout");
                lemma_ascii_before("threshold"@, "timeout"@, 1);
            }
            assert(key_before("timeout"@, "url"@)) by {
                reveal_strlit("timeout");
                reveal_strlit("url");
                lemma_ascii_before("timeout"@, "url"@, 0);
            }
            lemma_ascend_by_neighbours(entries);
        }
        assert forall|i: int| 0 <= i < entries.len() implies orderly(
            (#[trigger] entries[i]).1,
        ) by {
            String::lemma_encode_orderly(m.name);
            bool::lemma_encode_orderly(m.disabled);
            String::lemma_encode_orderly(m.url);
            Table::<Vec<String>>::lemma_encode_orderly(m.headers);
            Duration::lemma_encode_orderly(m.timeout);
            u32::lemma_encode_orderly(m.threshold);
            Duration::lemma_encode_orderly(m.backoff);
            Vec::<String>::lemma_encode_orderly(m.ignore_media_type);
            Ignore::lemma_encode_orderly(m.ignore);
        }
    }

    fn default_value() -> (r: EndPoint) {
        EndPoint {
            name: String::default_value(),
            disabled: bool::default_value(),
            url: String::default_value(),
            headers: Table::<Vec<String>>::default_value(),
            timeout: Duration::default_value(),
            threshold: u32::default_value(),
            backoff: Duration::default_value(),
            ignore_media_type: Vec::<String>::default_value(),
            ignore: Ignore::default_value(),
        }
    }

    fn from_node(node: &Node) -> (r: Result<EndPoint, ConfigError>) {
        match node {
            Node::Null => Ok(Self::default_value()),
            Node::Dict(entries) => {
                proof {
                    lemma_dict_tree(*entries);
                }
                let name = read_field::<String>(entries, "name")?;
                let disabled = read_field::<bool>(entries, "disabled")?;
                let url = read_field::<String>(entries, "url")?;
                let headers = read_field::<Table<Vec<String>>>(entries, "headers")?;
                let timeout = read_field::<Duration>(entries, "timeout")?;
                let threshold = read_field::<u32>(entries, "threshold")?;
                let backoff = read_field::<Duration>(entries, "backoff")?;
                let ignore_media_type = read_field::<Vec<String>>(entries, "ignoredmediatypes")?;
                let ignore = read_field::<Ignore>(entries, "ignore")?;
                Ok(
                    EndPoint {
                        name,
                        disabled,
                        url,
                        headers,
                        timeout,
                        threshold,
                        backoff,
                        ignore_media_type,
                        ignore,
                    },
                )
            },
            _ => Err(ConfigError::TypeMismatch(Expected::Dict)),
        }
    }

    fn to_node(&self) -> (node: Node) {
        let mut entries: Vec<(Node, Node)> = Vec::new();
        entries.push(entry("backoff", self.backoff.to_node()));
        entries.push(entry("disabled", self.disabled.to_node()));
        entries.push(entry("headers", self.headers.to_node()));
        entries.push(entry("ignore", self.ignore.to_node()));
        entries.push(entry("ignoredmediatypes", self.ignore_media_type.to_node()));
        entries.push(entry("name", self.name.to_node()));
        entries.push(entry("threshold", self.threshold.to_node()));
        entries.push(entry("timeout", self.timeout.to_node()));
        entries.push(entry("url", self.url.to_node()));
        proof {
            lemma_dict_tree(entries);
            assert(tree_pairs(entries@) =~= Self::encode(self.model())->Dict_0);
        }
        Node::Dict(entries)
    }
}

impl Lenient for EndPoint {
    proof fn lemma_null_is_default() {
    }
}

/// The notifications section.
#[derive(Debug, PartialEq)]
pub struct Notifications {
    /// What events carry.
    pub event_config: Events,
    /// The endpoints, in order.
    pub endpoints: Vec<EndPoint>,
}

/// `Notifications` as a mathematical value.
pub struct NotificationsModel {
    pub event_config: EventsModel,
    pub endpoints: Seq<EndPointModel>,
}

impl Codec for Notifications {
    type Model = NotificationsModel;

    open spec fn model(&self) -> NotificationsModel {
        NotificationsModel {
            event_config: self.event_config.model(),
            endpoints: self.endpoints.model(),
        }
    }

    open spec fn valid(m: NotificationsModel) -> bool {
        &&& Events::valid(m.event_config)
        &&& Vec::<EndPoint>::valid(m.endpoints)
    }

    open spec fn default_model() -> NotificationsModel {
        NotificationsModel {
            event_config: Events::default_model(),
            endpoints: Vec::<EndPoint>::default_model(),
        }
    }

    /// An explicit null reads as the default. A mapping is read field by
    /// field: a field whose key is missing takes its default, keys that
    /// name no field are passed over, and the first field in the order below
    /// that cannot be read decides the error. Anything else is no section.
    open spec fn decode(tree: Tree) -> Result<NotificationsModel, Fault> {
        match tree {
            Tree::Null => Ok(Self::default_model()),
            Tree::Dict(entries) => {
                let event_config = decode_field::<Events>(entries, "events"@);
                let endpoints = decode_field::<Vec<EndPoint>>(entries, "endpoints"@);
                if event_config is Err {
                    Err(event_config->Err_0)
                } else if endpoints is Err {
                    Err(endpoints->Err_0)
                } else {
                    Ok(
                        NotificationsModel {
                            event_config: event_config->Ok_0,
                            endpoints: endpoints->Ok_0,
                        },
                    )
                }
            },
            _ => Err(Fault::TypeMismatch(Expected::Dict)),
        }
    }

    /// A mapping with one entry for every field, in ascending key order.
    open spec fn encode(m: NotificationsModel) -> Tree {
        Tree::Dict(
            seq![
                (Tree::Text("endpoints"@), Vec::<EndPoint>::encode(m.endpoints)),
                (Tree::Text("events"@), Events::encode(m.event_config)),
            ],
        )
    }

    proof fn lemma_default_valid() {
        Events::lemma_default_valid();
        Vec::<EndPoint>::lemma_default_valid();
    }

    proof fn lemma_decode_valid(tree: Tree) {
        if let Tree::Dict(entries) = tree {
            lemma_field_valid::<Events>(entries, "events"@);
            lemma_field_valid::<Vec<EndPoint>>(entries, "endpoints"@);
        } else {
            Self::lemma_default_valid();
        }
    }

    proof fn lemma_round_trip(m: NotificationsModel) {
        let entries = Self::encode(m)->Dict_0;
        assert(decode_field::<Vec<EndPoint>>(
            entries,
            "endpoints"@,
        ) == Ok::<Seq<EndPointModel>, Fault>(m.endpoints)) by {
            reveal_strlit("endpoints");
            reveal_with_fuel(find_from, 2);
            Vec::<EndPoint>::lemma_round_trip(m.endpoints);
        }
        assert(decode_field::<Events>(
            entries,
            "events"@,
        ) == Ok::<EventsModel, Fault>(m.event_config)) by {
            reveal_strlit("endpoints");
            reveal_strlit("events");
            assert("events"@.len() == 6);
            assert("endpoints"@.len() == 9);
            reveal_with_fuel(find_from, 3);
            Events::lemma_round_trip(m.event_config);
        }
    }

    proof fn lemma_encode_orderly(m: NotificationsModel) {
        let entries = Self::encode(m)->Dict_0;
        assert(text_keys_ascend(entries)) by {
            assert(key_before("endpoints"@, "events"@)) by {
                reveal_strlit("endpoints");
                reveal_strlit("events");
                lemma_ascii_before("endpoints"@, "events"@, 1);
            }
            lemma_ascend_by_neighbours(entries);
        }
        assert forall|i: int| 0 <= i < entries.len() implies orderly(
            (#[trigger] entries[i]).1,
        ) by {
            Events::lemma_encode_orderly(m.event_config);
            Vec::<EndPoint>::lemma_encode_orderly(m.endpoints);
        }
    }

    fn default_value() -> (r: Notifications) {
        Notifications {
            event_config: Events::default_value(),
            endpoints: Vec::<EndPoint>::default_value(),
        }
    }

    fn from_node(node: &Node) -> (r: Result<Notifications, ConfigError>) {
        match node {
            Node::Null => Ok(Self::default_value()),
            Node::Dict(entries) => {
                proof {
                    lemma_dict_tree(*entries);
                }
                let event_config = read_field::<Events>(entries, "events")?;
                let endpoints = read_field::<Vec<EndPoint>>(entries, "endpoints")?;
                Ok(Notifications { event_config, endpoints })
            },
            _ => Err(ConfigError::TypeMismatch(Expected::Dict)),
        }
    }

    fn to_node(&self) -> (node: Node) {
        let mut entries: Vec<(Node, Node)> = Vec::new();
        entries.push(entry("endpoints", self.endpoints.to_node()));
        entries.push(entry("events", self.event_config.to_node()));
        proof {
            lemma_dict_tree(entries);
            assert(tree_pairs(entries@) =~= Self::encode(self.model())->Dict_0);
        }
        Node::Dict(entries)
    }
}

impl Lenient for Notifications {
    proof fn lemma_null_is_default() {
    }
}

} // verus!
