//! Mail delivery options of a log hook.

use crate::codec::{decode_field, entry, find_from, lemma_field_valid, read_field, Codec, Lenient};
use crate::error::{ConfigError, Expected, Fault};
use crate::text::{key_before, lemma_ascii_before};
use crate::tree::{
    lemma_ascend_by_neighbours, lemma_dict_tree, orderly, text_keys_ascend, tree_pairs, Node, Tree,
};
use vstd::prelude::*;

verus! {

/// The mail server that a log hook sends through.
#[derive(Debug, PartialEq)]
pub struct Smtp {
    /// Address of the server.
    pub addr: String,
    /// User to log in as.
    pub username: String,
    /// Password of that user.
    pub password: String,
    /// Whether the server's certificate goes unchecked.
    pub insecure: bool,
}

/// `Smtp` as a mathematical value.
pub struct SmtpModel {
    pub addr: Seq<char>,
    pub username: Seq<char>,
    pub password: Seq<char>,
    pub insecure: bool,
}

impl Codec for Smtp {
    type Model = SmtpModel;

    open spec fn model(&self) -> SmtpModel {
        SmtpModel {
            addr: self.addr.model(),
            username: self.username.model(),
            password: self.password.model(),
            insecure: self.insecure.model(),
        }
    }

    open spec fn valid(m: SmtpModel) -> bool {
        &&& String::valid(m.addr)
        &&& String::valid(m.username)
        &&& String::valid(m.password)
        &&& bool::valid(m.insecure)
    }

    open spec fn default_model() -> SmtpModel {
        SmtpModel {
            addr: String::default_model(),
            username: String::default_model(),
            password: String::default_model(),
            insecure: bool::default_model(),
        }
    }

    /// An explicit null reads as the default. A mapping is read field by
    /// field: a field whose key is missing takes its default, keys that
    /// name no field are passed over, and the first field in the order below
    /// that cannot be read decides the error. Anything else is no section.
    open spec fn decode(tree: Tree) -> Result<SmtpModel, Fault> {
        match tree {
            Tree::Null => Ok(Self::default_model()),
            Tree::Dict(entries) => {
                let addr = decode_field::<String>(entries, "addr"@);
                let username = decode_field::<String>(entries, "username"@);
                let password = decode_field::<String>(entries, "password"@);
                let insecure = decode_field::<bool>(entries, "insecure"@);
                if addr is Err {
                    Err(addr->Err_0)
                } else if username is Err {
                    Err(username->Err_0)
                } else if password is Err {
                    Err(password->Err_0)
                } else if insecure is Err {
                    Err(insecure->Err_0)
                } else {
                    Ok(
                        SmtpModel {
                            addr: addr->Ok_0,
                            username: username->Ok_0,
                            password: password->Ok_0,
                            insecure: insecure->Ok_0,
                        },
                    )
                }
            },
            _ => Err(Fault::TypeMismatch(Expected::Dict)),
        }
    }

    /// A mapping with one entry for every field, in ascending key order.
    open spec fn encode(m: SmtpModel) -> Tree {
        Tree::Dict(
            seq![
                (Tree::Text("addr"@), String::encode(m.addr)),
                (Tree::Text("insecure"@), bool::encode(m.insecure)),
                (Tree::Text("password"@), String::encode(m.password)),
                (Tree::Text("username"@), String::encode(m.username)),
            ],
        )
    }

    proof fn lemma_default_valid() {
        String::lemma_default_valid();
        bool::lemma_default_valid();
    }

    proof fn lemma_decode_valid(tree: Tree) {
        if let Tree::Dict(entries) = tree {
            lemma_field_valid::<String>(entries, "addr"@);
            lemma_field_valid::<String>(entries, "username"@);
            lemma_field_valid::<String>(entries, "password"@);
            lemma_field_valid::<bool>(entries, "insecure"@);
        } else {
            Self::lemma_default_valid();
        }
    }

    proof fn lemma_round_trip(m: SmtpModel) {
        let entries = Self::encode(m)->Dict_0;
        assert(decode_field::<String>(entries, "addr"@) == Ok::<Seq<char>, Fault>(m.addr)) by {
            reveal_strlit("addr");
            reveal_with_fuel(find_from, 2);
            String::lemma_round_trip(m.addr);
        }
        assert(decode_field::<bool>(entries, "insecure"@) == Ok::<bool, Fault>(m.insecure)) by {
            reveal_strlit("addr");
            reveal_strlit("insecure");
            assert("addr"@.len() == 4);
            assert("insecure"@.len() == 8);
            reveal_with_fuel(find_from, 3);
            bool::lemma_round_trip(m.insecure);
        }
        assert(decode_field::<String>(
            entries,
            "password"@,
        ) == Ok::<Seq<char>, Fault>(m.password)) by {
            reveal_strlit("addr");
            reveal_strlit("insecure");
            reveal_strlit("password");
            assert("addr"@.len() == 4);
            assert("insecure"@[0] == 'i');
            assert("insecure"@.len() == 8);
            assert("password"@[0] == 'p');
            assert("password"@.len() == 8);
            reveal_with_fuel(find_from, 4);
            String::lemma_round_trip(m.password);
        }
        assert(decode_field::<String>(
            entries,
            "username"@,
        ) == Ok::<Seq<char>, Fault>(m.username)) by {
            reveal_strlit("addr");
            reveal_strlit("insecure");
            reveal_strlit("password");
            reveal_strlit("username");
            assert("addr"@.len() == 4);
            assert("insecure"@[0] == 'i');
            assert("insecure"@.len() == 8);
            assert("password"@[0] == 'p');
            assert("password"@.len() == 8);
            assert("username"@[0] == 'u');
            assert("username"@.len() == 8);
            reveal_with_fuel(find_from, 5);
            String::lemma_round_trip(m.username);
        }
    }

    proof fn lemma_encode_orderly(m: SmtpModel) {
        let entries = Self::encode(m)->Dict_0;
        assert(text_keys_ascend(entries)) by {
            assert(key_before("addr"@, "insecure"@)) by {
                reveal_strlit("addr");
                reveal_strlit("insecure");
                lemma_ascii_before("addr"@, "insecure"@, 0);
            }
            assert(key_before("insecure"@, "password"@)) by {
                reveal_strlit("insecure");
                reveal_strlit("password");
                lemma_ascii_before("insecure"@, "password"@, 0);
            }
            assert(key_before("password"@, "username"@)) by {
                reveal_strlit("password");
                reveal_strlit("username");
                lemma_ascii_before("password"@, "username"@, 0);
            }
            lemma_ascend_by_neighbours(entries);
        }
        assert forall|i: int| 0 <= i < entries.len() implies orderly(
            (#[trigger] entries[i]).1,
        ) by {
            String::lemma_encode_orderly(m.addr);
            String::lemma_encode_orderly(m.username);
            String::lemma_encode_orderly(m.password);
            bool::lemma_encode_orderly(m.insecure);
        }
    }

    fn default_value() -> (r: Smtp) {
        Smtp {
            addr: String::default_value(),
            username: String::default_value(),
            password: String::default_value(),
            insecure: bool::default_value(),
        }
    }

    fn from_node(node: &Node) -> (r: Result<Smtp, ConfigError>) {
        match node {
            Node::Null => Ok(Self::default_value()),
            Node::Dict(entries) => {
                proof {
                    lemma_dict_tree(*entries);
                }
                let addr = read_field::<String>(entries, "addr")?;
                let username = read_field::<String>(entries, "username")?;
                let password = read_field::<String>(entries, "password")?;
                let insecure = read_field::<bool>(entries, "insecure")?;
                Ok(Smtp { addr, username, password, insecure })
            },
            _ => Err(ConfigError::TypeMismatch(Expected::Dict)),
        }
    }

    fn to_node(&self) -> (node: Node) {
        let mut entries: Vec<(Node, Node)> = Vec::new();
        entries.push(entry("addr", self.addr.to_node()));
        entries.push(entry("insecure", self.insecure.to_node()));
        entries.push(entry("password", self.password.to_node()));
        entries.push(entry("username", self.username.to_node()));
        proof {
            lemma_dict_tree(entries);
            assert(tree_pairs(entries@) =~= Self::encode(self.model())->Dict_0);
        }
        Node::Dict(entries)
    }
}

impl Lenient for Smtp {
    proof fn lemma_null_is_default() {
    }
}

/// Where a log hook sends its mail.
#[derive(Debug, PartialEq)]
pub struct MailOptions {
    /// The server to send through.
    pub smtp: Smtp,
    /// The sender.
    pub from: String,
    /// The recipients.
    pub to: Vec<String>,
}

/// `MailOptions` as a mathematical value.
pub struct MailOptionsModel {
    pub smtp: SmtpModel,
    pub from: Seq<char>,
    pub to: Seq<Seq<char>>,
}

impl Codec for MailOptions {
    type Model = MailOptionsModel;

    open spec fn model(&self) -> MailOptionsModel {
        MailOptionsModel {
            smtp: self.smtp.model(),
            from: self.from.model(),
            to: self.to.model(),
        }
    }

    open spec fn valid(m: MailOptionsModel) -> bool {
        &&& Smtp::valid(m.smtp)
        &&& String::valid(m.from)
        &&& Vec::<String>::valid(m.to)
    }

    open spec fn default_model() -> MailOptionsModel {
        MailOptionsModel {
            smtp: Smtp::default_model(),
            from: String::default_model(),
            to: Vec::<String>::default_model(),
        }
    }

    /// An explicit null reads as the default. A mapping is read field by
    /// field: a field whose key is missing takes its default, keys that
    /// name no field are passed over, and the first field in the order below
    /// that cannot be read decides the error. Anything else is no section.
    open spec fn decode(tree: Tree) -> Result<MailOptionsModel, Fault> {
        match tree {
            Tree::Null => Ok(Self::default_model()),
            Tree::Dict(entries) => {
                let smtp = decode_field::<Smtp>(entries, "smtp"@);
                let from = decode_field::<String>(entries, "from"@);
                let to = decode_field::<Vec<String>>(entries, "to"@);
                if smtp is Err {
                    Err(smtp->Err_0)
                } else if from is Err {
                    Err(from->Err_0)
                } else if to is Err {
                    Err(to->Err_0)
                } else {
                    Ok(
                        MailOptionsModel {
                            smtp: smtp->Ok_0,
                            from: from->Ok_0,
                            to: to->Ok_0,
                        },
                    )
                }
            },
            _ => Err(Fault::TypeMismatch(Expected::Dict)),
        }
    }

    /// A mapping with one entry for every field, in ascending key order.
    open spec fn encode(m: MailOptionsModel) -> Tree {
        Tree::Dict(
            seq![
                (Tree::Text("from"@), String::encode(m.from)),
                (Tree::Text("smtp"@), Smtp::encode(m.smtp)),
                (Tree::Text("to"@), Vec::<String>::encode(m.to)),
            ],
        )
    }

    proof fn lemma_default_valid() {
        Smtp::lemma_default_valid();
        String::lemma_default_valid();
        Vec::<String>::lemma_default_valid();
    }

    proof fn lemma_decode_valid(tree: Tree) {
        if let Tree::Dict(entries) = tree {
            lemma_field_valid::<Smtp>(entries, "smtp"@);
            lemma_field_valid::<String>(entries, "from"@);
            lemma_field_valid::<Vec<String>>(entries, "to"@);
        } else {
            Self::lemma_default_valid();
        }
    }

    proof fn lemma_round_trip(m: MailOptionsModel) {
        let entries = Self::encode(m)->Dict_0;
        assert(decode_field::<String>(entries, "from"@) == Ok::<Seq<char>, Fault>(m.from)) by {
            reveal_strlit("from");
            reveal_with_fuel(find_from, 2);
            String::lemma_round_trip(m.from);
        }
        assert(decode_field::<Smtp>(entries, "smtp"@) == Ok::<SmtpModel, Fault>(m.smtp)) by {
            reveal_strlit("from");
            reveal_strlit("smtp");
            assert("from"@[0] == 'f');
            assert("smtp"@[0] == 's');
            reveal_with_fuel(find_from, 3);
            Smtp::lemma_round_trip(m.smtp);
        }
        assert(decode_field::<Vec<String>>(
            entries,
            "to"@,
        ) == Ok::<Seq<Seq<char>>, Fault>(m.to)) by {
            reveal_strlit("from");
            reveal_strlit("smtp");
            reveal_strlit("to");
            assert("to"@.len() == 2);
            assert("from"@[0] == 'f');
            assert("from"@.len() == 4);
            assert("smtp"@[0] == 's');
            assert("smtp"@.len() == 4);
            reveal_with_fuel(find_from, 4);
            Vec::<String>::lemma_round_trip(m.to);
        }
    }

    proof fn lemma_encode_orderly(m: MailOptionsModel) {
        let entries = Self::encode(m)->Dict_0;
        assert(text_keys_ascend(entries)) by {
            assert(key_before("from"@, "smtp"@)) by {
                reveal_strlit("from");
                reveal_strlit("smtp");
                lemma_ascii_before("from"@, "smtp"@, 0);
            }
            assert(key_before("smtp"@, "to"@)) by {
                reveal_strlit("smtp");
                reveal_strlit("to");
                lemma_ascii_before("smtp"@, "to"@, 0);
            }
            lemma_ascend_by_neighbours(entries);
        }
        assert forall|i: int| 0 <= i < entries.len() implies orderly(
            (#[trigger] entries[i]).1,
        ) by {
            Smtp::lemma_encode_orderly(m.smtp);
            String::lemma_encode_orderly(m.from);
            Vec::<String>::lemma_encode_orderly(m.to);
        }
    }

    fn default_value() -> (r: MailOptions) {
        MailOptions {
            smtp: Smtp::default_value(),
            from: String::default_value(),
            to: Vec::<String>::default_value(),
        }
    }

    fn from_node(node: &Node) -> (r: Result<MailOptions, ConfigError>) {
        match node {
            Node::Null => Ok(Self::default_value()),
            Node::Dict(entries) => {
                proof {
                    lemma_dict_tree(*entries);
                }
                let smtp = read_field::<Smtp>(entries, "smtp")?;
                let from = read_field::<String>(entries, "from")?;
                let to = read_field::<Vec<String>>(entries, "to")?;
                Ok(MailOptions { smtp, from, to })
            },
            _ => Err(ConfigError::TypeMismatch(Expected::Dict)),
        }
    }

    fn to_node(&self) -> (node: Node) {
        let mut entries: Vec<(Node, Node)> = Vec::new();
        entries.push(entry("from", self.from.to_node()));
        entries.push(entry("smtp", self.smtp.to_node()));
        entries.push(entry("to", self.to.to_node()));
        proof {
            lemma_dict_tree(entries);
            assert(tree_pairs(entries@) =~= Self::encode(self.model())->Dict_0);
        }
        Node::Dict(entries)
    }
}

impl Lenient for MailOptions {
    proof fn lemma_null_is_default() {
    }
}

} // verus!
