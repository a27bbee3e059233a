//! The logging section.

use crate::codec::{decode_field, entry, find_from, lemma_field_valid, read_field, Codec, Lenient};
use crate::error::{ConfigError, Expected, Fault};
use crate::mail::{MailOptions, MailOptionsModel};
use crate::table::Table;
use crate::text::{key_before, lemma_ascii_before};
use crate::tree::{
    lemma_ascend_by_neighbours, lemma_dict_tree, orderly, text_keys_ascend, tree_pairs, Node, Tree,
};
use vstd::prelude::*;

verus! {

/// A level of logging, by its name.
pub type LogLevel = String;

/// The access log.
#[derive(Debug, PartialEq)]
pub struct AccessLog {
    /// Whether access logging is switched off.
    pub disabled: bool,
}

/// `AccessLog` as a mathematical value.
pub struct AccessLogModel {
    pub disabled: bool,
}

impl Codec for AccessLog {
    type Model = AccessLogModel;

    open spec fn model(&self) -> AccessLogModel {
        AccessLogModel {
            disabled: self.disabled.model(),
        }
    }

    open spec fn valid(m: AccessLogModel) -> bool {
        &&& bool::valid(m.disabled)
    }

    open spec fn default_model() -> AccessLogModel {
        AccessLogModel {
            disabled: bool::default_model(),
        }
    }

    /// An explicit null reads as the default. A mapping is read field by
    /// field: a field whose key is missing takes its default, keys that
    /// name no field are passed over, and the first field in the order below
    /// that cannot be read decides the error. Anything else is no section.
    open spec fn decode(tree: Tree) -> Result<AccessLogModel, Fault> {
        match tree {
            Tree::Null => Ok(Self::default_model()),
            Tree::Dict(entries) => {
                let disabled = decode_field::<bool>(entries, "disabled"@);
                if disabled is Err {
                    Err(disabled->Err_0)
                } else {
                    Ok(
                        AccessLogModel {
                            disabled: disabled->Ok_0,
                        },
                    )
                }
            },
            _ => Err(Fault::TypeMismatch(Expected::Dict)),
        }
    }

    /// A mapping with one entry for every field, in ascending key order.
    open spec fn encode(m: AccessLogModel) -> Tree {
        Tree::Dict(
            seq![
                (Tree::Text("disabled"@), bool::encode(m.disabled)),
            ],
        )
    }

    proof fn lemma_default_valid() {
        bool::lemma_default_valid();
    }

    proof fn lemma_decode_valid(tree: Tree) {
        if let Tree::Dict(entries) = tree {
            lemma_field_valid::<bool>(entries, "disabled"@);
        } else {
            Self::lemma_default_valid();
        }
    }

    proof fn lemma_round_trip(m: AccessLogModel) {
        let entries = Self::encode(m)->Dict_0;
        assert(decode_field::<bool>(entries, "disabled"@) == Ok::<bool, Fault>(m.disabled)) by {
            reveal_strlit("disabled");
            reveal_with_fuel(find_from, 2);
            bool::lemma_round_trip(m.disabled);
        }
    }

    proof fn lemma_encode_orderly(m: AccessLogModel) {
        let entries = Self::encode(m)->Dict_0;
        assert(text_keys_ascend(entries)) by {
            lemma_ascend_by_neighbours(entries);
        }
        assert forall|i: int| 0 <= i < entries.len() implies orderly(
            (#[trigger] entries[i]).1,
        ) by {
            bool::lemma_encode_orderly(m.disabled);
        }
    }

    fn default_value() -> (r: AccessLog) {
        AccessLog {
            disabled: bool::default_value(),
        }
    }

    fn from_node(node: &Node) -> (r: Result<AccessLog, ConfigError>) {
        match node {
            Node::Null => Ok(Self::default_value()),
            Node::Dict(entries) => {
                proof {
                    lemma_dict_tree(*entries);
                }
                let disabled = read_field::<bool>(entries, "disabled")?;
                Ok(AccessLog { disabled })
            },
            _ => Err(ConfigError::TypeMismatch(Expected::Dict)),
        }
    }

    fn to_node(&self) -> (node: Node) {
        let mut entries: Vec<(Node, Node)> = Vec::new();
        entries.push(entry("disabled", self.disabled.to_node()));
        proof {
            lemma_dict_tree(entries);
            assert(tree_pairs(entries@) =~= Self::encode(self.model())->Dict_0);
        }
        Node::Dict(entries)
    }
}

impl Lenient for AccessLog {
    proof fn lemma_null_is_default() {
    }
}

/// A hook that reacts to log entries.
#[derive(Debug, PartialEq)]
pub struct LogHook {
    /// Whether the hook is switched off.
    pub disabled: bool,
    /// The kind of hook.
    pub kind: String,
    /// The levels at which the hook fires.
    pub levels: Vec<String>,
    /// Mail settings of a hook that sends mail.
    pub mail_options: MailOptions,
}

/// `LogHook` as a mathematical value.
pub struct LogHookModel {
    pub disabled: bool,
    pub kind: Seq<char>,
    pub levels: Seq<Seq<char>>,
    pub mail_options: MailOptionsModel,
}

impl Codec for LogHook {
    type Model = LogHookModel;

    open spec fn model(&self) -> LogHookModel {
        LogHookModel {
            disabled: self.disabled.model(),
            kind: self.kind.model(),
            levels: self.levels.model(),
            mail_options: self.mail_options.model(),
        }
    }

    open spec fn valid(m: LogHookModel) -> bool {
        &&& bool::valid(m.disabled)
        &&& String::valid(m.kind)
        &&& Vec::<String>::valid(m.levels)
        &&& MailOptions::valid(m.mail_options)
    }

    open spec fn default_model() -> LogHookModel {
        LogHookModel {
            disabled: bool::default_model(),
            kind: String::default_model(),
            levels: Vec::<String>::default_model(),
            mail_options: MailOptions::default_model(),
        }
    }

    /// An explicit null reads as the default. A mapping is read field by
    /// field: a field whose key is missing takes its default, keys that
    /// name no field are passed over, and the first field in the order below
    /// that cannot be read decides the error. Anything else is no section.
    open spec fn decode(tree: Tree) -> Result<LogHookModel, Fault> {
        match tree {
            Tree::Null => Ok(Self::default_model()),
            Tree::Dict(entries) => {
                let disabled = decode_field::<bool>(entries, "disabled"@);
                let kind = decode_field::<String>(entries, "type"@);
                let levels = decode_field::<Vec<String>>(entries, "levels"@);
                let mail_options = decode_field::<MailOptions>(entries, "mailoptions"@);
                if disabled is Err {
                    Err(disabled->Err_0)
                } else if kind is Err {
                    Err(kind->Err_0)
                } else if levels is Err {
                    Err(levels->Err_0)
                } else if mail_options is Err {
                    Err(mail_options->Err_0)
                } else {
                    Ok(
                        LogHookModel {
                            disabled: disabled->Ok_0,
                            kind: kind->Ok_0,
                            levels: levels->Ok_0,
                            mail_options: mail_options->Ok_0,
                        },
                    )
                }
            },
            _ => Err(Fault::TypeMismatch(Expected::Dict)),
        }
    }

    /// A mapping with one entry for every field, in ascending key order.
    open spec fn encode(m: LogHookModel) -> Tree {
        Tree::Dict(
            seq![
                (Tree::Text("disabled"@), bool::encode(m.disabled)),
                (Tree::Text("levels"@), Vec::<String>::encode(m.levels)),
                (Tree::Text("mailoptions"@), MailOptions::encode(m.mail_options)),
                (Tree::Text("type"@), String::encode(m.kind)),
            ],
        )
    }

    proof fn lemma_default_valid() {
        bool::lemma_default_valid();
        String::lemma_default_valid();
        Vec::<String>::lemma_default_valid();
        MailOptions::lemma_default_valid();
    }

    proof fn lemma_decode_valid(tree: Tree) {
        if let Tree::Dict(entries) = tree {
            lemma_field_valid::<bool>(entries, "disabled"@);
            lemma_field_valid::<String>(entries, "type"@);
            lemma_field_valid::<Vec<String>>(entries, "levels"@);
            lemma_field_valid::<MailOptions>(entries, "mailoptions"@);
        } else {
            Self::lemma_default_valid();
        }
    }

    proof fn lemma_round_trip(m: LogHookModel) {
        let entries = Self::encode(m)->Dict_0;
        assert(decode_field::<bool>(entries, "disabled"@) == Ok::<bool, Fault>(m.disabled)) by {
            reveal_strlit("disabled");
            reveal_with_fuel(find_from, 2);
            bool::lemma_round_trip(m.disabled);
        }
        assert(decode_field::<Vec<String>>(
            entries,
            "levels"@,
        ) == Ok::<Seq<Seq<char>>, Fault>(m.levels)) by {
            reveal_strlit("disabled");
            reveal_strlit("levels");
            assert("levels"@.len() == 6);
            assert("disabled"@.len() == 8);
            reveal_with_fuel(find_from, 3);
            Vec::<String>::lemma_round_trip(m.levels);
        }
        assert(decode_field::<MailOptions>(
            entries,
            "mailoptions"@,
        ) == Ok::<MailOptionsModel, Fault>(m.mail_options)) by {
            reveal_strlit("disabled");
            reveal_strlit("levels");
            reveal_strlit("mailoptions");
            assert("levels"@.len() == 6);
            assert("disabled"@.len() == 8);
            assert("mailoptions"@.len() == 11);
            reveal_with_fuel(find_from, 4);
            MailOptions::lemma_round_trip(m.mail_options);
        }
        assert(decode_field::<String>(entries, "type"@) == Ok::<Seq<char>, Fault>(m.kind)) by {
            reveal_strlit("disabled");
            reveal_strlit("levels");
            reveal_strlit("mailoptions");
            reveal_strlit("type");
            assert("type"@.len() == 4);
            assert("levels"@.len() == 6);
            assert("disabled"@.len() == 8);
            assert("mailoptions"@.len() == 11);
            reveal_with_fuel(find_from, 5);
            String::lemma_round_trip(m.kind);
        }
    }

    proof fn lemma_encode_orderly(m: LogHookModel) {
        let entries = Self::encode(m)->Dict_0;
        assert(text_keys_ascend(entries)) by {
            assert(key_before("disabled"@, "levels"@)) by {
                reveal_strlit("disabled");
                reveal_strlit("levels");
                lemma_ascii_before("disabled"@, "levels"@, 0);
            }
            assert(key_before("levels"@, "mailoptions"@)) by {
                reveal_strlit("levels");
                reveal_strlit("mailoptions");
                lemma_ascii_before("levels"@, "mailoptions"@, 0);
            }
            assert(key_before("mailoptions"@, "type"@)) by {
                reveal_strlit("mailoptions");
                reveal_strlit("type");
                lemma_ascii_before("mailoptions"@, "type"@, 0);
            }
            lemma_ascend_by_neighbours(entries);
        }
        assert forall|i: int| 0 <= i < entries.len() implies orderly(
            (#[trigger] entries[i]).1,
        ) by {
            bool::lemma_encode_orderly(m.disabled);
            String::lemma_encode_orderly(m.kind);
            Vec::<String>::lemma_encode_orderly(m.levels);
            MailOptions::lemma_encode_orderly(m.mail_options);
        }
    }

    fn default_value() -> (r: LogHook) {
        LogHook {
            disabled: bool::default_value(),
            kind: String::default_value(),
            levels: Vec::<String>::default_value(),
            mail_options: MailOptions::default_value(),
        }
    }

    fn from_node(node: &Node) -> (r: Result<LogHook, ConfigError>) {
        match node {
            Node::Null => Ok(Self::default_value()),
            Node::Dict(entries) => {
                proof {
                    lemma_dict_tree(*entries);
                }
                let disabled = read_field::<bool>(entries, "disabled")?;
                let kind = read_field::<String>(entries, "type")?;
                let levels = read_field::<Vec<String>>(entries, "levels")?;
                let mail_options = read_field::<MailOptions>(entries, "mailoptions")?;
                Ok(LogHook { disabled, kind, levels, mail_options })
            },
            _ => Err(ConfigError::TypeMismatch(Expected::Dict)),
        }
    }

    fn to_node(&self) -> (node: Node) {
        let mut entries: Vec<(Node, Node)> = Vec::new();
        entries.push(entry("disabled", self.disabled.to_node()));
        entries.push(entry("levels", self.levels.to_node()));
        entries.push(entry("mailoptions", self.mail_options.to_node()));
        entries.push(entry("type", self.kind.to_node()));
        proof {
            lemma_dict_tree(entries);
            assert(tree_pairs(entries@) =~= Self::encode(self.model())->Dict_0);
        }
        Node::Dict(entries)
    }
}

impl Lenient for LogHook {
    proof fn lemma_null_is_default() {
    }
}

/// Settings of the logging subsystem.
#[derive(Debug, PartialEq)]
pub struct Log {
    /// The access log.
    pub access_log: AccessLog,
    /// The lowest level that is logged.
    pub level: LogLevel,
    /// The format of log lines.
    pub formatter: String,
    /// Fields added to every log line.
    pub fields: Table<String>,
    /// The hooks, in order.
    pub hooks: Vec<LogHook>,
}

/// `Log` as a mathematical value.
pub struct LogModel {
    pub access_log: AccessLogModel,
    pub level: Seq<char>,
    pub formatter: Seq<char>,
    pub fields: Seq<(Seq<char>, Seq<char>)>,
    pub hooks: Seq<LogHookModel>,
}

impl Codec for Log {
    type Model = LogModel;

    open spec fn model(&self) -> LogModel {
        LogModel {
            access_log: self.access_log.model(),
            level: self.level.model(),
            formatter: self.formatter.model(),
            fields: self.fields.model(),
            hooks: self.hooks.model(),
        }
    }

    open spec fn valid(m: LogModel) -> bool {
        &&& AccessLog::valid(m.access_log)
        &&& String::valid(m.level)
        &&& String::valid(m.formatter)
        &&& Table::<String>::valid(m.fields)
        &&& Vec::<LogHook>::valid(m.hooks)
    }

    open spec fn default_model() -> LogModel {
        LogModel {
            access_log: AccessLog::default_model(),
            level: String::default_model(),
            formatter: String::default_model(),
            fields: Table::<String>::default_model(),
            hooks: Vec::<LogHook>::default_model(),
        }
    }

    /// An explicit null reads as the default. A mapping is read field by
    /// field: a field whose key is missing takes its default, keys that
    /// name no field are passed over, and the first field in the order below
    /// that cannot be read decides the error. Anything else is no section.
    open spec fn decode(tree: Tree) -> Result<LogModel, Fault> {
        match tree {
            Tree::Null => Ok(Self::default_model()),
            Tree::Dict(entries) => {
                let access_log = decode_field::<AccessLog>(entries, "accesslog"@);
                let level = decode_field::<String>(entries, "level"@);
                let formatter = decode_field::<String>(entries, "formatter"@);
                let fields = decode_field::<Table<String>>(entries, "fields"@);
                let hooks = decode_field::<Vec<LogHook>>(entries, "hooks"@);
                if access_log is Err {
                    Err(access_log->Err_0)
                } else if level is Err {
                    Err(level->Err_0)
                } else if formatter is Err {
                    Err(formatter->Err_0)
                } else if fields is Err {
                    Err(fields->Err_0)
                } else if hooks is Err {
                    Err(hooks->Err_0)
                } else {
                    Ok(
                        LogModel {
                            access_log: access_log->Ok_0,
                            level: level->Ok_0,
                            formatter: formatter->Ok_0,
                            fields: fields->Ok_0,
                            hooks: hooks->Ok_0,
                        },
                    )
                }
            },
            _ => Err(Fault::TypeMismatch(Expected::Dict)),
        }
    }

    /// A mapping with one entry for every field, in ascending key order.
    open spec fn encode(m: LogModel) -> Tree {
        Tree::Dict(
            seq![
                (Tree::Text("accesslog"@), AccessLog::encode(m.access_log)),
                (Tree::Text("fields"@), Table::<String>::encode(m.fields)),
                (Tree::Text("formatter"@), String::encode(m.formatter)),
                (Tree::Text("hooks"@), Vec::<LogHook>::encode(m.hooks)),
                (Tree::Text("level"@), String::encode(m.level)),
            ],
        )
    }

    proof fn lemma_default_valid() {
        AccessLog::lemma_default_valid();
        String::lemma_default_valid();
        Table::<String>::lemma_default_valid();
        Vec::<LogHook>::lemma_default_valid();
    }

    proof fn lemma_decode_valid(tree: Tree) {
        if let Tree::Dict(entries) = tree {
            lemma_field_valid::<AccessLog>(entries, "accesslog"@);
            lemma_field_valid::<String>(entries, "level"@);
            lemma_field_valid::<String>(entries, "formatter"@);
            lemma_field_valid::<Table<String>>(entries, "fields"@);
            lemma_field_valid::<Vec<LogHook>>(entries, "hooks"@);
        } else {
            Self::lemma_default_valid();
        }
    }

    proof fn lemma_round_trip(m: LogModel) {
        let entries = Self::encode(m)->Dict_0;
        assert(decode_field::<AccessLog>(
            entries,
            "accesslog"@,
        ) == Ok::<AccessLogModel, Fault>(m.access_log)) by {
            reveal_strlit("accesslog");
            reveal_with_fuel(find_from, 2);
            AccessLog::lemma_round_trip(m.access_log);
        }
        assert(decode_field::<Table<String>>(
            entries,
            "fields"@,
        ) == Ok::<Seq<(Seq<char>, Seq<char>)>, Fault>(m.fields)) by {
            reveal_strlit("accesslog");
            reveal_strlit("fields");
            assert("fields"@.len() == 6);
            assert("accesslog"@.len() == 9);
            reveal_with_fuel(find_from, 3);
            Table::<String>::lemma_round_trip(m.fields);
        }
        assert(decode_field::<String>(
            entries,
            "formatter"@,
        ) == Ok::<Seq<char>, Fault>(m.formatter)) by {
            reveal_strlit("accesslog");
            reveal_strlit("fields");
            reveal_strlit("formatter");
            assert("fields"@.len() == 6);
            assert("accesslog"@[0] == 'a');
            assert("accesslog"@.len() == 9);
            assert("formatter"@[0] == 'f');
            assert("formatter"@.len() == 9);
            reveal_with_fuel(find_from, 4);
            String::lemma_round_trip(m.formatter);
        }
        assert(decode_field::<Vec<LogHook>>(
            entries,
            "hooks"@,
        ) == Ok::<Seq<LogHookModel>, Fault>(m.hooks)) by {
            reveal_strlit("accesslog");
            reveal_strlit("fields");
            reveal_strlit("formatter");
            reveal_strlit("hooks");
            assert("hooks"@.len() == 5);
            assert("fields"@.len() == 6);
            assert("accesslog"@[0] == 'a');
            assert("accesslog"@.len() == 9);
            assert("formatter"@[0] == 'f');
            assert("formatter"@.len() == 9);
            reveal_with_fuel(find_from, 5);
            Vec::<LogHook>::lemma_round_trip(m.hooks);
        }
        assert(decode_field::<String>(entries, "level"@) == Ok::<Seq<char>, Fault>(m.level)) by {
            reveal_strlit("accesslog");
            reveal_strlit("fields");
            reveal_strlit("formatter");
            reveal_strlit("hooks");
            reveal_strlit("level");
            assert("hooks"@[0] == 'h');
            assert("hooks"@.len() == 5);
            assert("level"@[0] == 'l');
            assert("level"@.len() == 5);
            assert("fields"@.len() == 6);
            assert("accesslog"@[0] == 'a');
            assert("accesslog"@.len() == 9);
            assert("formatter"@[0] == 'f');
            assert("formatter"@.len() == 9);
            reveal_with_fuel(find_from, 6);
            String::lemma_round_trip(m.level);
        }
    }

    proof fn lemma_encode_orderly(m: LogModel) {
        let entries = Self::encode(m)->Dict_0;
        assert(text_keys_ascend(entries)) by {
            assert(key_before("accesslog"@, "fields"@)) by {
                reveal_strlit("accesslog");
                reveal_strlit("fields");
                lemma_ascii_before("accesslog"@, "fields"@, 0);
            }
            assert(key_before("fields"@, "formatter"@)) by {
                reveal_strlit("fields");
                reveal_strlit("formatter");
                lemma_ascii_before("fields"@, "formatter"@, 1);
            }
            assert(key_before("formatter"@, "hooks"@)) by {
                reveal_strlit("formatter");
                reveal_strlit("hooks");
                lemma_ascii_before("formatter"@, "hooks"@, 0);
            }
            assert(key_before("hooks"@, "level"@)) by {
                reveal_strlit("hooks");
                reveal_strlit("level");
                lemma_ascii_before("hooks"@, "level"@, 0);
            }
            lemma_ascend_by_neighbours(entries);
        }
        assert forall|i: int| 0 <= i < entries.len() implies orderly(
            (#[trigger] entries[i]).1,
        ) by {
            AccessLog::lemma_encode_orderly(m.access_log);
            String::lemma_encode_orderly(m.level);
            String::lemma_encode_orderly(m.formatter);
            Table::<String>::lemma_encode_orderly(m.fields);
            Vec::<LogHook>::lemma_encode_orderly(m.hooks);
        }
    }

    fn default_value() -> (r: Log) {
        Log {
            access_log: AccessLog::default_value(),
            level: String::default_value(),
            formatter: String::default_value(),
            fields: Table::<String>::default_value(),
            hooks: Vec::<LogHook>::default_value(),
        }
    }

    fn from_node(node: &Node) -> (r: Result<Log, ConfigError>) {
        match node {
            Node::Null => Ok(Self::default_value()),
            Node::Dict(entries) => {
                proof {
                    lemma_dict_tree(*entries);
                }
                let access_log = read_field::<AccessLog>(entries, "accesslog")?;
                let level = read_field::<String>(entries, "level")?;
                let formatter = read_field::<String>(entries, "formatter")?;
                let fields = read_field::<Table<String>>(entries, "fields")?;
                let hooks = read_field::<Vec<LogHook>>(entries, "hooks")?;
                Ok(Log { access_log, level, formatter, fields, hooks })
            },
            _ => Err(ConfigError::TypeMismatch(Expected::Dict)),
        }
    }

    fn to_node(&self) -> (node: Node) {
        let mut entries: Vec<(Node, Node)> = Vec::new();
        entries.push(entry("accesslog", self.access_log.to_node()));
        entries.push(entry("fields", self.fields.to_node()));
        entries.push(entry("formatter", self.formatter.to_node()));
        entries.push(entry("hooks", self.hooks.to_node()));
        entries.push(entry("level", self.level.to_node()));
        proof {
            lemma_dict_tree(entries);
            assert(tree_pairs(entries@) =~= Self::encode(self.model())->Dict_0);
        }
        Node::Dict(entries)
    }
}

impl Lenient for Log {
    proof fn lemma_null_is_default() {
    }
}

} // verus!
