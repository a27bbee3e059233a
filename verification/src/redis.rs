//! The connection to Redis.

use crate::codec::{decode_field, entry, find_from, lemma_field_valid, read_field, Codec, Lenient};
use crate::duration::Duration;
use crate::error::{ConfigError, Expected, Fault};
use crate::text::{key_before, lemma_ascii_before};
use crate::tree::{
    lemma_ascend_by_neighbours, lemma_dict_tree, orderly, text_keys_ascend, tree_pairs, Node, Tree,
};
use vstd::prelude::*;

verus! {

/// The connection pool.
#[derive(Debug, PartialEq)]
pub struct Pool {
    /// The most idle connections kept.
    pub max_idle: u32,
    /// The most connections opened before a request blocks.
    pub max_active: u32,
    /// How long an idle connection is kept.
    pub idle_timeout: Duration,
}

/// `Pool` as a mathematical value.
pub struct PoolModel {
    pub max_idle: u32,
    pub max_active: u32,
    pub idle_timeout: Duration,
}

impl Codec for Pool {
    type Model = PoolModel;

    open spec fn model(&self) -> PoolModel {
        PoolModel {
            max_idle: self.max_idle.model(),
            max_active: self.max_active.model(),
            idle_timeout: self.idle_timeout.model(),
        }
    }

    open spec fn valid(m: PoolModel) -> bool {
        &&& u32::valid(m.max_idle)
        &&& u32::valid(m.max_active)
        &&& Duration::valid(m.idle_timeout)
    }

    open spec fn default_model() -> PoolModel {
        PoolModel {
            max_idle: u32::default_model(),
            max_active: u32::default_model(),
            idle_timeout: Duration::default_model(),
        }
    }

    /// An explicit null reads as the default. A mapping is read field by
    /// field: a field whose key is missing takes its default, keys that
    /// name no field are passed over, and the first field in the order below
    /// that cannot be read decides the error. Anything else is no section.
    open spec fn decode(tree: Tree) -> Result<PoolModel, Fault> {
        match tree {
            Tree::Null => Ok(Self::default_model()),
            Tree::Dict(entries) => {
                let max_idle = decode_field::<u32>(entries, "maxidle"@);
                let max_active = decode_field::<u32>(entries, "maxactive"@);
                let idle_timeout = decode_field::<Duration>(entries, "idletimeout"@);
                if max_idle is Err {
                    Err(max_idle->Err_0)
                } else if max_active is Err {
                    Err(max_active->Err_0)
                } else if idle_timeout is Err {
                    Err(idle_timeout->Err_0)
                } else {
                    Ok(
                        PoolModel {
                            max_idle: max_idle->Ok_0,
                            max_active: max_active->Ok_0,
                            idle_timeout: idle_timeout->Ok_0,
                        },
                    )
                }
            },
            _ => Err(Fault::TypeMismatch(Expected::Dict)),
        }
    }

    /// A mapping with one entry for every field, in ascending key order.
    open spec fn encode(m: PoolModel) -> Tree {
        Tree::Dict(
            seq![
                (Tree::Text("idletimeout"@), Duration::encode(m.idle_timeout)),
                (Tree::Text("maxactive"@), u32::encode(m.max_active)),
                (Tree::Text("maxidle"@), u32::encode(m.max_idle)),
            ],
        )
    }

    proof fn lemma_default_valid() {
        u32::lemma_default_valid();
        Duration::lemma_default_valid();
    }

    proof fn lemma_decode_valid(tree: Tree) {
        if let Tree::Dict(entries) = tree {
            lemma_field_valid::<u32>(entries, "maxidle"@);
            lemma_field_valid::<u32>(entries, "maxactive"@);
            lemma_field_valid::<Duration>(entries, "idletimeout"@);
        } else {
            Self::lemma_default_valid();
        }
    }

    proof fn lemma_round_trip(m: PoolModel) {
        let entries = Self::encode(m)->Dict_0;
        assert(decode_field::<Duration>(
            entries,
            "idletimeout"@,
        ) == Ok::<Duration, Fault>(m.idle_timeout)) by {
            reveal_strlit("idletimeout");
            reveal_with_fuel(find_from, 2);
            Duration::lemma_round_trip(m.idle_timeout);
        }
        assert(decode_field::<u32>(entries, "maxactive"@) == Ok::<u32, Fault>(m.max_active)) by {
            reveal_strlit("idletimeout");
            reveal_strlit("maxactive");
            assert("maxactive"@.len() == 9);
            assert("idletimeout"@.len() == 11);
            reveal_with_fuel(find_from, 3);
            u32::lemma_round_trip(m.max_active);
        }
        assert(decode_field::<u32>(entries, "maxidle"@) == Ok::<u32, Fault>(m.max_idle)) by {
            reveal_strlit("idletimeout");
            reveal_strlit("maxactive");
            reveal_strlit("maxidle");
            assert("maxidle"@.len() == 7);
            assert("maxactive"@.len() == 9);
            assert("idletimeout"@.len() == 11);
            reveal_with_fuel(find_from, 4);
            u32::lemma_round_trip(m.max_idle);
        }
    }

    proof fn lemma_encode_orderly(m: PoolModel) {
        let entries = Self::encode(m)->Dict_0;
        assert(text_keys_ascend(entries)) by {
            assert(key_before("idletimeout"@, "maxactive"@)) by {
                reveal_strlit("idletimeout");
                reveal_strlit("maxactive");
                lemma_ascii_before("idletimeout"@, "maxactive"@, 0);
            }
            assert(key_before("maxactive"@, "maxidle"@)) by {
                reveal_strlit("maxactive");
                reveal_strlit("maxidle");
                lemma_ascii_before("maxactive"@, "maxidle"@, 3);
            }
            lemma_ascend_by_neighbours(entries);
        }
        assert forall|i: int| 0 <= i < entries.len() implies orderly(
            (#[trigger] entries[i]).1,
        ) by {
            u32::lemma_encode_orderly(m.max_idle);
            u32::lemma_encode_orderly(m.max_active);
            Duration::lemma_encode_orderly(m.idle_timeout);
        }
    }

    fn default_value() -> (r: Pool) {
        Pool {
            max_idle: u32::default_value(),
            max_active: u32::default_value(),
            idle_timeout: Duration::default_value(),
        }
    }

    fn from_node(node: &Node) -> (r: Result<Pool, ConfigError>) {
        match node {
            Node::Null => Ok(Self::default_value()),
            Node::Dict(entries) => {
                proof {
                    lemma_dict_tree(*entries);
                }
                let max_idle = read_field::<u32>(entries, "maxidle")?;
                let max_active = read_field::<u32>(entries, "maxactive")?;
                let idle_timeout = read_field::<Duration>(entries, "idletimeout")?;
                Ok(Pool { max_idle, max_active, idle_timeout })
            },
            _ => Err(ConfigError::TypeMismatch(Expected::Dict)),
        }
    }

    fn to_node(&self) -> (node: Node) {
        let mut entries: Vec<(Node, Node)> = Vec::new();
        entries.push(entry("idletimeout", self.idle_timeout.to_node()));
        entries.push(entry("maxactive", self.max_active.to_node()));
        entries.push(entry("maxidle", self.max_idle.to_node()));
        proof {
            lemma_dict_tree(entries);
            assert(tree_pairs(entries@) =~= Self::encode(self.model())->Dict_0);
        }
        Node::Dict(entries)
    }
}

impl Lenient for Pool {
    proof fn lemma_null_is_default() {
    }
}

/// The Redis instance that the registry uses.
#[derive(Debug, PartialEq)]
pub struct Redis {
    /// Address of the instance.
    pub addr: String,
    /// Password to connect with.
    pub password: String,
    /// The database to use.
    pub db: u32,
    /// How long connecting may take.
    pub dial_timeout: Duration,
    /// How long a read may take.
    pub read_timeout: Duration,
    /// How long a write may take.
    pub write_timeout: Duration,
    /// The connection pool.
    pub pool: Pool,
}

/// `Redis` as a mathematical value.
pub struct RedisModel {
    pub addr: Seq<char>,
    pub password: Seq<char>,
    pub db: u32,
    pub dial_timeout: Duration,
    pub read_timeout: Duration,
    pub write_timeout: Duration,
    pub pool: PoolModel,
}

impl Codec for Redis {
    type Model = RedisModel;

    open spec fn model(&self) -> RedisModel {
        RedisModel {
            addr: self.addr.model(),
            password: self.password.model(),
            db: self.db.model(),
            dial_timeout: self.dial_timeout.model(),
            read_timeout: self.read_timeout.model(),
            write_timeout: self.write_timeout.model(),
            pool: self.pool.model(),
        }
    }

    open spec fn valid(m: RedisModel) -> bool {
        &&& String::valid(m.addr)
        &&& String::valid(m.password)
        &&& u32::valid(m.db)
        &&& Duration::valid(m.dial_timeout)
        &&& Duration::valid(m.read_timeout)
        &&& Duration::valid(m.write_timeout)
        &&& Pool::valid(m.pool)
    }

    open spec fn default_model() -> RedisModel {
        RedisModel {
            addr: String::default_model(),
            password: String::default_model(),
            db: u32::default_model(),
            dial_timeout: Duration::default_model(),
            read_timeout: Duration::default_model(),
            write_timeout: Duration::default_model(),
            pool: Pool::default_model(),
        }
    }

    /// An explicit null reads as the default. A mapping is read field by
    /// field: a field whose key is missing takes its default, keys that
    /// name no field are passed over, and the first field in the order below
    /// that cannot be read decides the error. Anything else is no section.
    open spec fn decode(tree: Tree) -> Result<RedisModel, Fault> {
        match tree {
            Tree::Null => Ok(Self::default_model()),
            Tree::Dict(entries) => {
                let addr = decode_field::<String>(entries, "addr"@);
                let password = decode_field::<String>(entries, "password"@);
                let db = decode_field::<u32>(entries, "db"@);
                let dial_timeout = decode_field::<Duration>(entries, "dialtimeout"@);
                let read_timeout = decode_field::<Duration>(entries, "readtimeout"@);
                let write_timeout = decode_field::<Duration>(entries, "writetimeout"@);
                let pool = decode_field::<Pool>(entries, "pool"@);
                if addr is Err {
                    Err(addr->Err_0)
                } else if password is Err {
                    Err(password->Err_0)
                } else if db is Err {
                    Err(db->Err_0)
                } else if dial_timeout is Err {
                    Err(dial_timeout->Err_0)
                } else if read_timeout is Err {
                    Err(read_timeout->Err_0)
                } else if write_timeout is Err {
                    Err(write_timeout->Err_0)
                } else if pool is Err {
                    Err(pool->Err_0)
                } else {
                    Ok(
                        RedisModel {
                            addr: addr->Ok_0,
                            password: password->Ok_0,
                            db: db->Ok_0,
                            dial_timeout: dial_timeout->Ok_0,
                            read_timeout: read_timeout->Ok_0,
                            write_timeout: write_timeout->Ok_0,
                            pool: pool->Ok_0,
                        },
                    )
                }
            },
            _ => Err(Fault::TypeMismatch(Expected::Dict)),
        }
    }

    /// A mapping with one entry for every field, in ascending key order.
    open spec fn encode(m: RedisModel) -> Tree {
        Tree::Dict(
            seq![
                (Tree::Text("addr"@), String::encode(m.addr)),
                (Tree::Text("db"@), u32::encode(m.db)),
                (Tree::Text("dialtimeout"@), Duration::encode(m.dial_timeout)),
                (Tree::Text("password"@), String::encode(m.password)),
                (Tree::Text("pool"@), Pool::encode(m.pool)),
                (Tree::Text("readtimeout"@), Duration::encode(m.read_timeout)),
                (Tree::Text("writetimeout"@), Duration::encode(m.write_timeout)),
            ],
        )
    }

    proof fn lemma_default_valid() {
        String::lemma_default_valid();
        u32::lemma_default_valid();
        Duration::lemma_default_valid();
        Pool::lemma_default_valid();
    }

    proof fn lemma_decode_valid(tree: Tree) {
        if let Tree::Dict(entries) = tree {
            lemma_field_valid::<String>(entries, "addr"@);
            lemma_field_valid::<String>(entries, "password"@);
            lemma_field_valid::<u32>(entries, "db"@);
            lemma_field_valid::<Duration>(entries, "dialtimeout"@);
            lemma_field_valid::<Duration>(entries, "readtimeout"@);
            lemma_field_valid::<Duration>(entries, "writetimeout"@);
            lemma_field_valid::<Pool>(entries, "pool"@);
        } else {
            Self::lemma_default_valid();
        }
    }

    proof fn lemma_round_trip(m: RedisModel) {
        let entries = Self::encode(m)->Dict_0;
        assert(decode_field::<String>(entries, "addr"@) == Ok::<Seq<char>, Fault>(m.addr)) by {
            reveal_strlit("addr");
            reveal_with_fuel(find_from, 2);
            String::lemma_round_trip(m.addr);
        }
        assert(decode_field::<u32>(entries, "db"@) == Ok::<u32, Fault>(m.db)) by {
            reveal_strlit("addr");
            reveal_strlit("db");
            assert("db"@.len() == 2);
            assert("addr"@.len() == 4);
            reveal_with_fuel(find_from, 3);
            u32::lemma_round_trip(m.db);
        }
        assert(decode_field::<Duration>(
            entries,
            "dialtimeout"@,
        ) == Ok::<Duration, Fault>(m.dial_timeout)) by {
            reveal_strlit("addr");
            reveal_strlit("db");
            reveal_strlit("dialtimeout");
            assert("db"@.len() == 2);
            assert("addr"@.len() == 4);
            assert("dialtimeout"@.len() == 11);
            reveal_with_fuel(find_from, 4);
            Duration::lemma_round_trip(m.dial_timeout);
        }
        assert(decode_field::<String>(
            entries,
            "password"@,
        ) == Ok::<Seq<char>, Fault>(m.password)) by {
            reveal_strlit("addr");
            reveal_strlit("db");
            reveal_strlit("dialtimeout");
            reveal_strlit("password");
            assert("db"@.len() == 2);
            assert("addr"@.len() == 4);
            assert("password"@.len() == 8);
            assert("dialtimeout"@.len() == 11);
            reveal_with_fuel(find_from, 5);
            String::lemma_round_trip(m.password);
        }
        assert(decode_field::<Pool>(entries, "pool"@) == Ok::<PoolModel, Fault>(m.pool)) by {
            reveal_strlit("addr");
            reveal_strlit("db");
            reveal_strlit("dialtimeout");
            reveal_strlit("password");
            reveal_strlit("pool");
            assert("db"@.len() == 2);
            assert("addr"@[0] == 'a');
            assert("addr"@.len() == 4);
            assert("pool"@[0] == 'p');
            assert("pool"@.len() == 4);
            assert("password"@.len() == 8);
            assert("dialtimeout"@.len() == 11);
            reveal_with_fuel(find_from, 6);
            Pool::lemma_round_trip(m.pool);
        }
        assert(decode_field::<Duration>(
            entries,
            "readtimeout"@,
        ) == Ok::<Duration, Fault>(m.read_timeout)) by {
            reveal_strlit("addr");
            reveal_strlit("db");
            reveal_strlit("dialtimeout");
            reveal_strlit("password");
            reveal_strlit("pool");
            reveal_strlit("readtimeout");
            assert("db"@.len() == 2);
            assert("addr"@[0] == 'a');
            assert("addr"@.len() == 4);
            assert("pool"@[0] == 'p');
            assert("pool"@.len() == 4);
            assert("password"@.len() == 8);
            assert("dialtimeout"@[0] == 'd');
            assert("dialtimeout"@.len() == 11);
            assert("readtimeout"@[0] == 'r');
            assert("readtimeout"@.len() == 11);
            reveal_with_fuel(find_from, 7);
            Duration::lemma_round_trip(m.read_timeout);
        }
        assert(decode_field::<Duration>(
            entries,
            "writetimeout"@,
        ) == Ok::<Duration, Fault>(m.write_timeout)) by {
            reveal_strlit("addr");
            reveal_strlit("db");
            reveal_strlit("dialtimeout");
            reveal_strlit("password");
            reveal_strlit("pool");
            reveal_strlit("readtimeout");
            reveal_strlit("writetimeout");
            assert("db"@.len() == 2);
            assert("addr"@[0] == 'a');
            assert("addr"@.len() == 4);
            assert("pool"@[0] == 'p');
            assert("pool"@.len() == 4);
            assert("password"@.len() == 8);
            assert("dialtimeout"@[0] == 'd');
            assert("dialtimeout"@.len() == 11);
            assert("readtimeout"@[0] == 'r');
            assert("readtimeout"@.len() == 11);
            assert("writetimeout"@.len() == 12);
            reveal_with_fuel(find_from, 8);
            Duration::lemma_round_trip(m.write_timeout);
        }
    }

    proof fn lemma_encode_orderly(m: RedisModel) {
        let entries = Self::encode(m)->Dict_0;
        assert(text_keys_ascend(entries)) by {
            assert(key_before("addr"@, "db"@)) by {
                reveal_strlit("addr");
                reveal_strlit("db");
                lemma_ascii_before("addr"@, "db"@, 0);
            }
            assert(key_before("db"@, "dialtimeout"@)) by {
                reveal_strlit("db");
                reveal_strlit("dialtimeout");
                lemma_ascii_before("db"@, "dialtimeout"@, 1);
            }
            assert(key_before("dialtimeout"@, "password"@)) by {
                reveal_strlit("dialtimeout");
                reveal_strlit("password");
                lemma_ascii_before("dialtimeout"@, "password"@, 0);
            }
            assert(key_before("password"@, "pool"@)) by {
                reveal_strlit("password");
                reveal_strlit("pool");
                lemma_ascii_before("password"@, "pool"@, 1);
            }
            assert(key_before("pool"@, "readtimeout"@)) by {
                reveal_strlit("pool");
                reveal_strlit("readtimeout");
                lemma_ascii_before("pool"@, "readtimeout"@, 0);
            }
            assert(key_before("readtimeout"@, "writetimeout"@)) by {
                reveal_strlit("readtimeout");
                reveal_strlit("writetimeout");
                lemma_ascii_before("readtimeout"@, "writetimeout"@, 0);
            }
            lemma_ascend_by_neighbours(entries);
        }
        assert forall|i: int| 0 <= i < entries.len() implies orderly(
            (#[trigger] entries[i]).1,
        ) by {
            String::lemma_encode_orderly(m.addr);
            String::lemma_encode_orderly(m.password);
            u32::lemma_encode_orderly(m.db);
            Duration::lemma_encode_orderly(m.dial_timeout);
            Duration::lemma_encode_orderly(m.read_timeout);
            Duration::lemma_encode_orderly(m.write_timeout);
            Pool::lemma_encode_orderly(m.pool);
        }
    }

    fn default_value() -> (r: Redis) {
        Redis {
            addr: String::default_value(),
            password: String::default_value(),
            db: u32::default_value(),
            dial_timeout: Duration::default_value(),
            read_timeout: Duration::default_value(),
            write_timeout: Duration::default_value(),
            pool: Pool::default_value(),
        }
    }

    fn from_node(node: &Node) -> (r: Result<Redis, ConfigError>) {
        match node {
            Node::Null => Ok(Self::default_value()),
            Node::Dict(entries) => {
                proof {
                    lemma_dict_tree(*entries);
                }
                let addr = read_field::<String>(entries, "addr")?;
                let password = read_field::<String>(entries, "password")?;
                let db = read_field::<u32>(entries, "db")?;
                let dial_timeout = read_field::<Duration>(entries, "dialtimeout")?;
                let read_timeout = read_field::<Duration>(entries, "readtimeout")?;
                let write_timeout = read_field::<Duration>(entries, "writetimeout")?;
                let pool = read_field::<Pool>(entries, "pool")?;
                Ok(Redis { addr, password, db, dial_timeout, read_timeout, write_timeout, pool })
            },
            _ => Err(ConfigError::TypeMismatch(Expected::Dict)),
        }
    }

    fn to_node(&self) -> (node: Node) {
        let mut entries: Vec<(Node, Node)> = Vec::new();
        entries.push(entry("addr", self.addr.to_node()));
        entries.push(entry("db", self.db.to_node()));
        entries.push(entry("dialtimeout", self.dial_timeout.to_node()));
        entries.push(entry("password", self.password.to_node()));
        entries.push(entry("pool", self.pool.to_node()));
        entries.push(entry("readtimeout", self.read_timeout.to_node()));
        entries.push(entry("writetimeout", self.write_timeout.to_node()));
        proof {
            lemma_dict_tree(entries);
            assert(tree_pairs(entries@) =~= Self::encode(self.model())->Dict_0);
        }
        Node::Dict(entries)
    }
}

impl Lenient for Redis {
    proof fn lemma_null_is_default() {
    }
}

} // verus!
