//! Error and performance reporting.

use crate::codec::{decode_field, entry, find_from, lemma_field_valid, read_field, Codec, Lenient};
use crate::error::{ConfigError, Expected, Fault};
use crate::text::{key_before, lemma_ascii_before};
use crate::tree::{
    lemma_ascend_by_neighbours, lemma_dict_tree, orderly, text_keys_ascend, tree_pairs, Node, Tree,
};
use vstd::prelude::*;

verus! {

/// Reporting to Bugsnag.
#[derive(Debug, PartialEq)]
pub struct BugsnagReporting {
    /// The API key.
    pub api_key: String,
    /// The release stage reported.
    pub release_stage: String,
    /// The endpoint reported to.
    pub endpoint: String,
}

/// `BugsnagReporting` as a mathematical value.
pub struct BugsnagReportingModel {
    pub api_key: Seq<char>,
    pub release_stage: Seq<char>,
    pub endpoint: Seq<char>,
}

impl Codec for BugsnagReporting {
    type Model = BugsnagReportingModel;

    open spec fn model(&self) -> BugsnagReportingModel {
        BugsnagReportingModel {
            api_key: self.api_key.model(),
            release_stage: self.release_stage.model(),
            endpoint: self.endpoint.model(),
        }
    }

    open spec fn valid(m: BugsnagReportingModel) -> bool {
        &&& String::valid(m.api_key)
        &&& String::valid(m.release_stage)
        &&& String::valid(m.endpoint)
    }

    open spec fn default_model() -> BugsnagReportingModel {
        BugsnagReportingModel {
            api_key: String::default_model(),
            release_stage: String::default_model(),
            endpoint: String::default_model(),
        }
    }

    /// An explicit null reads as the default. A mapping is read field by
    /// field: a field whose key is missing takes its default, keys that
    /// name no field are passed over, and the first field in the order below
    /// that cannot be read decides the error. Anything else is no section.
    open spec fn decode(tree: Tree) -> Result<BugsnagReportingModel, Fault> {
        match tree {
            Tree::Null => Ok(Self::default_model()),
            Tree::Dict(entries) => {
                let api_key = decode_field::<String>(entries, "apikey"@);
                let release_stage = decode_field::<String>(entries, "releasestage"@);
                let endpoint = decode_field::<String>(entries, "endpoint"@);
                if api_key is Err {
                    Err(api_key->Err_0)
                } else if release_stage is Err {
                    Err(release_stage->Err_0)
                } else if endpoint is Err {
                    Err(endpoint->Err_0)
                } else {
                    Ok(
                        BugsnagReportingModel {
                            api_key: api_key->Ok_0,
                            release_stage: release_stage->Ok_0,
                            endpoint: endpoint->Ok_0,
                        },
                    )
                }
            },
            _ => Err(Fault::TypeMismatch(Expected::Dict)),
        }
    }

    /// A mapping with one entry for every field, in ascending key order.
    open spec fn encode(m: BugsnagReportingModel) -> Tree {
        Tree::Dict(
            seq![
                (Tree::Text("apikey"@), String::encode(m.api_key)),
                (Tree::Text("endpoint"@), String::encode(m.endpoint)),
                (Tree::Text("releasestage"@), String::encode(m.release_stage)),
            ],
        )
    }

    proof fn lemma_default_valid() {
        String::lemma_default_valid();
    }

    proof fn lemma_decode_valid(tree: Tree) {
        if let Tree::Dict(entries) = tree {
            lemma_field_valid::<String>(entries, "apikey"@);
            lemma_field_valid::<String>(entries, "releasestage"@);
            lemma_field_valid::<String>(entries, "endpoint"@);
        } else {
            Self::lemma_default_valid();
        }
    }

    proof fn lemma_round_trip(m: BugsnagReportingModel) {
        let entries = Self::encode(m)->Dict_0;
        assert(decode_field::<String>(entries, "apikey"@) == Ok::<Seq<char>, Fault>(m.api_key)) by {
            reveal_strlit("apikey");
            reveal_with_fuel(find_from, 2);
            String::lemma_round_trip(m.api_key);
        }
        assert(decode_field::<String>(
            entries,
            "endpoint"@,
        ) == Ok::<Seq<char>, Fault>(m.endpoint)) by {
            reveal_strlit("apikey");
            reveal_strlit("endpoint");
            assert("apikey"@.len() == 6);
            assert("endpoint"@.len() == 8);
            reveal_with_fuel(find_from, 3);
            String::lemma_round_trip(m.endpoint);
        }
        assert(decode_field::<String>(
            entries,
            "releasestage"@,
        ) == Ok::<Seq<char>, Fault>(m.release_stage)) by {
            reveal_strlit("apikey");
            reveal_strlit("endpoint");
            reveal_strlit("releasestage");
            assert("apikey"@.len() == 6);
            assert("endpoint"@.len() == 8);
            assert("releasestage"@.len() == 12);
            reveal_with_fuel(find_from, 4);
            String::lemma_round_trip(m.release_stage);
        }
    }

    proof fn lemma_encode_orderly(m: BugsnagReportingModel) {
        let entries = Self::encode(m)->Dict_0;
        assert(text_keys_ascend(entries)) by {
            assert(key_before("apikey"@, "endpoint"@)) by {
                reveal_strlit("apikey");
                reveal_strlit("endpoint");
                lemma_ascii_before("apikey"@, "endpoint"@, 0);
            }
            assert(key_before("endpoint"@, "releasestage"@)) by {
                reveal_strlit("endpoint");
                reveal_strlit("releasestage");
                lemma_ascii_before("endpoint"@, "releasestage"@, 0);
            }
            lemma_ascend_by_neighbours(entries);
        }
        assert forall|i: int| 0 <= i < entries.len() implies orderly(
            (#[trigger] entries[i]).1,
        ) by {
            String::lemma_encode_orderly(m.api_key);
            String::lemma_encode_orderly(m.release_stage);
            String::lemma_encode_orderly(m.endpoint);
        }
    }

    fn default_value() -> (r: BugsnagReporting) {
        BugsnagReporting {
            api_key: String::default_value(),
            release_stage: String::default_value(),
            endpoint: String::default_value(),
        }
    }

    fn from_node(node: &Node) -> (r: Result<BugsnagReporting, ConfigError>) {
        match node {
            Node::Null => Ok(Self::default_value()),
            Node::Dict(entries) => {
                proof {
                    lemma_dict_tree(*entries);
                }
                let api_key = read_field::<String>(entries, "apikey")?;
                let release_stage = read_field::<String>(entries, "releasestage")?;
                let endpoint = read_field::<String>(entries, "endpoint")?;
                Ok(BugsnagReporting { api_key, release_stage, endpoint })
            },
            _ => Err(ConfigError::TypeMismatch(Expected::Dict)),
        }
    }

    fn to_node(&self) -> (node: Node) {
        let mut entries: Vec<(Node, Node)> = Vec::new();
        entries.push(entry("apikey", self.api_key.to_node()));
        entries.push(entry("endpoint", self.endpoint.to_node()));
        entries.push(entry("releasestage", self.release_stage.to_node()));
        proof {
            lemma_dict_tree(entries);
            assert(tree_pairs(entries@) =~= Self::encode(self.model())->Dict_0);
        }
        Node::Dict(entries)
    }
}

impl Lenient for BugsnagReporting {
    proof fn lemma_null_is_default() {
    }
}

/// Reporting to New Relic.
#[derive(Debug, PartialEq)]
pub struct NewRelicReporting {
    /// The license key.
    pub license_key: String,
    /// The application name reported.
    pub name: String,
    /// Whether reporting is verbose.
    pub verbose: bool,
}

/// `NewRelicReporting` as a mathematical value.
pub struct NewRelicReportingModel {
    pub license_key: Seq<char>,
    pub name: Seq<char>,
    pub verbose: bool,
}

impl Codec for NewRelicReporting {
    type Model = NewRelicReportingModel;

    open spec fn model(&self) -> NewRelicReportingModel {
        NewRelicReportingModel {
            license_key: self.license_key.model(),
            name: self.name.model(),
            verbose: self.verbose.model(),
        }
    }

    open spec fn valid(m: NewRelicReportingModel) -> bool {
        &&& String::valid(m.license_key)
        &&& String::valid(m.name)
        &&& bool::valid(m.verbose)
    }

    open spec fn default_model() -> NewRelicReportingModel {
        NewRelicReportingModel {
            license_key: String::default_model(),
            name: String::default_model(),
            verbose: bool::default_model(),
        }
    }

    /// An explicit null reads as the default. A mapping is read field by
    /// field: a field whose key is missing takes its default, keys that
    /// name no field are passed over, and the first field in the order below
    /// that cannot be read decides the error. Anything else is no section.
    open spec fn decode(tree: Tree) -> Result<NewRelicReportingModel, Fault> {
        match tree {
            Tree::Null => Ok(Self::default_model()),
            Tree::Dict(entries) => {
                let license_key = decode_field::<String>(entries, "licensekey"@);
                let name = decode_field::<String>(entries, "name"@);
                let verbose = decode_field::<bool>(entries, "verbose"@);
                if license_key is Err {
                    Err(license_key->Err_0)
                } else if name is Err {
                    Err(name->Err_0)
                } else if verbose is Err {
                    Err(verbose->Err_0)
                } else {
                    Ok(
                        NewRelicReportingModel {
                            license_key: license_key->Ok_0,
                            name: name->Ok_0,
                            verbose: verbose->Ok_0,
                        },
                    )
                }
            },
            _ => Err(Fault::TypeMismatch(Expected::Dict)),
        }
    }

    /// A mapping with one entry for every field, in ascending key order.
    open spec fn encode(m: NewRelicReportingModel) -> Tree {
        Tree::Dict(
            seq![
                (Tree::Text("licensekey"@), String::encode(m.license_key)),
                (Tree::Text("name"@), String::encode(m.name)),
                (Tree::Text("verbose"@), bool::encode(m.verbose)),
            ],
        )
    }

    proof fn lemma_default_valid() {
        String::lemma_default_valid();
        bool::lemma_default_valid();
    }

    proof fn lemma_decode_valid(tree: Tree) {
        if let Tree::Dict(entries) = tree {
            lemma_field_valid::<String>(entries, "licensekey"@);
            lemma_field_valid::<String>(entries, "name"@);
            lemma_field_valid::<bool>(entries, "verbose"@);
        } else {
            Self::lemma_default_valid();
        }
    }

    proof fn lemma_round_trip(m: NewRelicReportingModel) {
        let entries = Self::encode(m)->Dict_0;
        assert(decode_field::<String>(
            entries,
            "licensekey"@,
        ) == Ok::<Seq<char>, Fault>(m.license_key)) by {
            reveal_strlit("licensekey");
            reveal_with_fuel(find_from, 2);
            String::lemma_round_trip(m.license_key);
        }
        assert(decode_field::<String>(entries, "name"@) == Ok::<Seq<char>, Fault>(m.name)) by {
            reveal_strlit("licensekey");
            reveal_strlit("name");
            assert("name"@.len() == 4);
            assert("licensekey"@.len() == 10);
            reveal_with_fuel(find_from, 3);
            String::lemma_round_trip(m.name);
        }
        assert(decode_field::<bool>(entries, "verbose"@) == Ok::<bool, Fault>(m.verbose)) by {
            reveal_strlit("licensekey");
            reveal_strlit("name");
            reveal_strlit("verbose");
            assert("name"@.len() == 4);
            assert("verbose"@.len() == 7);
            assert("licensekey"@.len() == 10);
            reveal_with_fuel(find_from, 4);
            bool::lemma_round_trip(m.verbose);
        }
    }

    proof fn lemma_encode_orderly(m: NewRelicReportingModel) {
        let entries = Self::encode(m)->Dict_0;
        assert(text_keys_ascend(entries)) by {
            assert(key_before("licensekey"@, "name"@)) by {
                reveal_strlit("licensekey");
                reveal_strlit("name");
                lemma_ascii_before("licensekey"@, "name"@, 0);
            }
            assert(key_before("name"@, "verbose"@)) by {
                reveal_strlit("name");
                reveal_strlit("verbose");
                lemma_ascii_before("name"@, "verbose"@, 0);
            }
            lemma_ascend_by_neighbours(entries);
        }
        assert forall|i: int| 0 <= i < entries.len() implies orderly(
            (#[trigger] entries[i]).1,
        ) by {
            String::lemma_encode_orderly(m.license_key);
            String::lemma_encode_orderly(m.name);
            bool::lemma_encode_orderly(m.verbose);
        }
    }

    fn default_value() -> (r: NewRelicReporting) {
        NewRelicReporting {
            license_key: String::default_value(),
            name: String::default_value(),
            verbose: bool::default_value(),
        }
    }

    fn from_node(node: &Node) -> (r: Result<NewRelicReporting, ConfigError>) {
        match node {
            Node::Null => Ok(Self::default_value()),
            Node::Dict(entries) => {
                proof {
                    lemma_dict_tree(*entries);
                }
                let license_key = read_field::<String>(entries, "licensekey")?;
                let name = read_field::<String>(entries, "name")?;
                let verbose = read_field::<bool>(entries, "verbose")?;
                Ok(NewRelicReporting { license_key, name, verbose })
            },
            _ => Err(ConfigError::TypeMismatch(Expected::Dict)),
        }
    }

    fn to_node(&self) -> (node: Node) {
        let mut entries: Vec<(Node, Node)> = Vec::new();
        entries.push(entry("licensekey", self.license_key.to_node()));
        entries.push(entry("name", self.name.to_node()));
        entries.push(entry("verbose", self.verbose.to_node()));
        proof {
            lemma_dict_tree(entries);
            assert(tree_pairs(entries@) =~= Self::encode(self.model())->Dict_0);
        }
        Node::Dict(entries)
    }
}

impl Lenient for NewRelicReporting {
    proof fn lemma_null_is_default() {
    }
}

/// The reporting section.
#[derive(Debug, PartialEq)]
pub struct Reporting {
    /// Reporting to Bugsnag.
    pub bugsnag: BugsnagReporting,
    /// Reporting to New Relic.
    pub new_relic: NewRelicReporting,
}

/// `Reporting` as a mathematical value.
pub struct ReportingModel {
    pub bugsnag: BugsnagReportingModel,
    pub new_relic: NewRelicReportingModel,
}

impl Codec for Reporting {
    type Model = ReportingModel;

    open spec fn model(&self) -> ReportingModel {
        ReportingModel {
            bugsnag: self.bugsnag.model(),
            new_relic: self.new_relic.model(),
        }
    }

    open spec fn valid(m: ReportingModel) -> bool {
        &&& BugsnagReporting::valid(m.bugsnag)
        &&& NewRelicReporting::valid(m.new_relic)
    }

    open spec fn default_model() -> ReportingModel {
        ReportingModel {
            bugsnag: BugsnagReporting::default_model(),
            new_relic: NewRelicReporting::default_model(),
        }
    }

    /// An explicit null reads as the default. A mapping is read field by
    /// field: a field whose key is missing takes its default, keys that
    /// name no field are passed over, and the first field in the order below
    /// that cannot be read decides the error. Anything else is no section.
    open spec fn decode(tree: Tree) -> Result<ReportingModel, Fault> {
        match tree {
            Tree::Null => Ok(Self::default_model()),
            Tree::Dict(entries) => {
                let bugsnag = decode_field::<BugsnagReporting>(entries, "bugsnag"@);
                let new_relic = decode_field::<NewRelicReporting>(entries, "newrelic"@);
                if bugsnag is Err {
                    Err(bugsnag->Err_0)
                } else if new_relic is Err {
                    Err(new_relic->Err_0)
                } else {
                    Ok(
                        ReportingModel {
                            bugsnag: bugsnag->Ok_0,
                            new_relic: new_relic->Ok_0,
                        },
                    )
                }
            },
            _ => Err(Fault::TypeMismatch(Expected::Dict)),
        }
    }

    /// A mapping with one entry for every field, in ascending key order.
    open spec fn encode(m: ReportingModel) -> Tree {
        Tree::Dict(
            seq![
                (Tree::Text("bugsnag"@), BugsnagReporting::encode(m.bugsnag)),
                (Tree::Text("newrelic"@), NewRelicReporting::encode(m.new_relic)),
            ],
        )
    }

    proof fn lemma_default_valid() {
        BugsnagReporting::lemma_default_valid();
        NewRelicReporting::lemma_default_valid();
    }

    proof fn lemma_decode_valid(tree: Tree) {
        if let Tree::Dict(entries) = tree {
            lemma_field_valid::<BugsnagReporting>(entries, "bugsnag"@);
            lemma_field_valid::<NewRelicReporting>(entries, "newrelic"@);
        } else {
            Self::lemma_default_valid();
        }
    }

    proof fn lemma_round_trip(m: ReportingModel) {
        let entries = Self::encode(m)->Dict_0;
        assert(decode_field::<BugsnagReporting>(
            entries,
            "bugsnag"@,
        ) == Ok::<BugsnagReportingModel, Fault>(m.bugsnag)) by {
            reveal_strlit("bugsnag");
            reveal_with_fuel(find_from, 2);
            BugsnagReporting::lemma_round_trip(m.bugsnag);
        }
        assert(decode_field::<NewRelicReporting>(
            entries,
            "newrelic"@,
        ) == Ok::<NewRelicReportingModel, Fault>(m.new_relic)) by {
            reveal_strlit("bugsnag");
            reveal_strlit("newrelic");
            assert("bugsnag"@.len() == 7);
            assert("newrelic"@.len() == 8);
            reveal_with_fuel(find_from, 3);
            NewRelicReporting::lemma_round_trip(m.new_relic);
        }
    }

    proof fn lemma_encode_orderly(m: ReportingModel) {
        let entries = Self::encode(m)->Dict_0;
        assert(text_keys_ascend(entries)) by {
            assert(key_before("bugsnag"@, "newrelic"@)) by {
                reveal_strlit("bugsnag");
                reveal_strlit("newrelic");
                lemma_ascii_before("bugsnag"@, "newrelic"@, 0);
            }
            lemma_ascend_by_neighbours(entries);
        }
        assert forall|i: int| 0 <= i < entries.len() implies orderly(
            (#[trigger] entries[i]).1,
        ) by {
            BugsnagReporting::lemma_encode_orderly(m.bugsnag);
            NewRelicReporting::lemma_encode_orderly(m.new_relic);
        }
    }

    fn default_value() -> (r: Reporting) {
        Reporting {
            bugsnag: BugsnagReporting::default_value(),
            new_relic: NewRelicReporting::default_value(),
        }
    }

    fn from_node(node: &Node) -> (r: Result<Reporting, ConfigError>) {
        match node {
            Node::Null => Ok(Self::default_value()),
            Node::Dict(entries) => {
                proof {
                    lemma_dict_tree(*entries);
                }
                let bugsnag = read_field::<BugsnagReporting>(entries, "bugsnag")?;
                let new_relic = read_field::<NewRelicReporting>(entries, "newrelic")?;
                Ok(Reporting { bugsnag, new_relic })
            },
            _ => Err(ConfigError::TypeMismatch(Expected::Dict)),
        }
    }

    fn to_node(&self) -> (node: Node) {
        let mut entries: Vec<(Node, Node)> = Vec::new();
        entries.push(entry("bugsnag", self.bugsnag.to_node()));
        entries.push(entry("newrelic", self.new_relic.to_node()));
        proof {
            lemma_dict_tree(entries);
            assert(tree_pairs(entries@) =~= Self::encode(self.model())->Dict_0);
        }
        Node::Dict(entries)
    }
}

impl Lenient for Reporting {
    proof fn lemma_null_is_default() {
    }
}

} // verus!
