//! The configuration as a whole: reading it from text, writing it as text,
//! and the laws that hold of the two.

use crate::codec::{
    decode_field, entry, find_from, lemma_field_valid, lemma_find_at, lemma_find_none, outcome,
    read_field, Codec, Lenient,
};
use crate::compatibility::{Compatibility, CompatibilityModel};
use crate::duration::Duration;
use crate::error::{ConfigError, Expected, Fault};
use crate::health::{Health, HealthModel};
use crate::http::{Http, HttpModel};
use crate::log::{Log, LogModel};
use crate::middleware::{Middleware, MiddlewareModel};
use crate::notifications::{Notifications, NotificationsModel};
use crate::parameter::{ParameterModel, Parameters};
use crate::policy::{Policy, PolicyModel};
use crate::proxy::{Proxy, ProxyModel};
use crate::redis::{Redis, RedisModel};
use crate::reporting::{Reporting, ReportingModel};
use crate::storage::{Storage, StorageMediaModel, StorageModel};
use crate::table::Table;
use crate::text::{key_before, lemma_ascii_before};
use crate::tree::{
    lemma_ascend_by_neighbours, lemma_dict_tree, orderly, text_keys_ascend, tree_pairs, Node, Tree,
};
use crate::validation::{Validation, ValidationModel};
use crate::yaml::{
    lemma_writable, read_document, spelled, writable, write_document, yaml_parsed, yaml_written,
};
use vstd::prelude::*;

verus! {

/// The ways requests are authorised: each by its name, with its options.
pub type Auth = Table<Parameters>;

/// The configuration of a registry: one value for each of its sections. It is
/// made in one piece by reading a document, and two configurations are equal
/// where every field is.
#[derive(Debug, PartialEq)]
pub struct Configuration {
    /// The version of the format that the rest is in.
    pub version: String,
    /// The logging subsystem.
    pub log: Log,
    /// The storage driver.
    pub storage: Storage,
    /// The ways requests are authorised, each with its options.
    pub auth: Auth,
    /// The middlewares in use, by the place where they apply.
    pub middleware: Table<Vec<Middleware>>,
    /// Error and performance reporting.
    pub reporting: Reporting,
    /// The HTTP listener.
    pub http: Http,
    /// Notification of events.
    pub notifications: Notifications,
    /// The connection to Redis.
    pub redis: Redis,
    /// Health checks.
    pub health: Health,
    /// The registry as a pull-through cache.
    pub proxy: Proxy,
    /// Support of older and deprecated features.
    pub compatibility: Compatibility,
    /// Validation of what is pushed.
    pub validation: Validation,
    /// Registry policy.
    pub policy: Policy,
}

/// `Configuration` as a mathematical value.
pub struct ConfigurationModel {
    pub version: Seq<char>,
    pub log: LogModel,
    pub storage: StorageModel,
    pub auth: Seq<(Seq<char>, Seq<(Seq<char>, ParameterModel)>)>,
    pub middleware: Seq<(Seq<char>, Seq<MiddlewareModel>)>,
    pub reporting: ReportingModel,
    pub http: HttpModel,
    pub notifications: NotificationsModel,
    pub redis: RedisModel,
    pub health: HealthModel,
    pub proxy: ProxyModel,
    pub compatibility: CompatibilityModel,
    pub validation: ValidationModel,
    pub policy: PolicyModel,
}

impl Codec for Configuration {
    type Model = ConfigurationModel;

    open spec fn model(&self) -> ConfigurationModel {
        ConfigurationModel {
            version: self.version.model(),
            log: self.log.model(),
            storage: self.storage.model(),
            auth: self.auth.model(),
            middleware: self.middleware.model(),
            reporting: self.reporting.model(),
            http: self.http.model(),
            notifications: self.notifications.model(),
            redis: self.redis.model(),
            health: self.health.model(),
            proxy: self.proxy.model(),
            compatibility: self.compatibility.model(),
            validation: self.validation.model(),
            policy: self.policy.model(),
        }
    }

    open spec fn valid(m: ConfigurationModel) -> bool {
        &&& String::valid(m.version)
        &&& Log::valid(m.log)
        &&& Storage::valid(m.storage)
        &&& Table::<Parameters>::valid(m.auth)
        &&& Table::<Vec<Middleware>>::valid(m.middleware)
        &&& Reporting::valid(m.reporting)
        &&& Http::valid(m.http)
        &&& Notifications::valid(m.notifications)
        &&& Redis::valid(m.redis)
        &&& Health::valid(m.health)
        &&& Proxy::valid(m.proxy)
        &&& Compatibility::valid(m.compatibility)
        &&& Validation::valid(m.validation)
        &&& Policy::valid(m.policy)
    }

    open spec fn default_model() -> ConfigurationModel {
        ConfigurationModel {
            version: String::default_model(),
            log: Log::default_model(),
            storage: Storage::default_model(),
            auth: Table::<Parameters>::default_model(),
            middleware: Table::<Vec<Middleware>>::default_model(),
            reporting: Reporting::default_model(),
            http: Http::default_model(),
            notifications: Notifications::default_model(),
            redis: Redis::default_model(),
            health: Health::default_model(),
            proxy: Proxy::default_model(),
            compatibility: Compatibility::default_model(),
            validation: Validation::default_model(),
            policy: Policy::default_model(),
        }
    }

    /// An explicit null reads as the default. A mapping is read field by
    /// field: a field whose key is missing takes its default, keys that
    /// name no field are passed over, and the first field in the order below
    /// that cannot be read decides the error. Anything else is no section.
    open spec fn decode(tree: Tree) -> Result<ConfigurationModel, Fault> {
        match tree {
            Tree::Null => Ok(Self::default_model()),
            Tree::Dict(entries) => {
                let version = decode_field::<String>(entries, "version"@);
                let log = decode_field::<Log>(entries, "log"@);
                let storage = decode_field::<Storage>(entries, "storage"@);
                let auth = decode_field::<Table<Parameters>>(entries, "auth"@);
                let middleware = decode_field::<Table<Vec<Middleware>>>(entries, "middleware"@);
                let reporting = decode_field::<Reporting>(entries, "reporting"@);
                let http = decode_field::<Http>(entries, "http"@);
                let notifications = decode_field::<Notifications>(entries, "notifications"@);
                let redis = decode_field::<Redis>(entries, "redis"@);
                let health = decode_field::<Health>(entries, "health"@);
                let proxy = decode_field::<Proxy>(entries, "proxy"@);
                let compatibility = decode_field::<Compatibility>(entries, "compatibility"@);
                let validation = decode_field::<Validation>(entries, "validation"@);
                let policy = decode_field::<Policy>(entries, "policy"@);
                if version is Err {
                    Err(version->Err_0)
                } else if log is Err {
                    Err(log->Err_0)
                } else if storage is Err {
                    Err(storage->Err_0)
                } else if auth is Err {
                    Err(auth->Err_0)
                } else if middleware is Err {
                    Err(middleware->Err_0)
                } else if reporting is Err {
                    Err(reporting->Err_0)
                } else if http is Err {
                    Err(http->Err_0)
                } else if notifications is Err {
                    Err(notifications->Err_0)
                } else if redis is Err {
                    Err(redis->Err_0)
                } else if health is Err {
                    Err(health->Err_0)
                } else if proxy is Err {
                    Err(proxy->Err_0)
                } else if compatibility is Err {
                    Err(compatibility->Err_0)
                } else if validation is Err {
                    Err(validation->Err_0)
                } else if policy is Err {
                    Err(policy->Err_0)
                } else {
                    Ok(
                        ConfigurationModel {
                            version: version->Ok_0,
                            log: log->Ok_0,
                            storage: storage->Ok_0,
                            auth: auth->Ok_0,
                            middleware: middleware->Ok_0,
                            reporting: reporting->Ok_0,
                            http: http->Ok_0,
                            notifications: notifications->Ok_0,
                            redis: redis->Ok_0,
                            health: health->Ok_0,
                            proxy: proxy->Ok_0,
                            compatibility: compatibility->Ok_0,
                            validation: validation->Ok_0,
                            policy: policy->Ok_0,
                        },
                    )
                }
            },
            _ => Err(Fault::TypeMismatch(Expected::Dict)),
        }
    }

    /// A mapping with one entry for every field, in ascending key order.
    open spec fn encode(m: ConfigurationModel) -> Tree {
        Tree::Dict(
            seq![
                (Tree::Text("auth"@), Table::<Parameters>::encode(m.auth)),
                (Tree::Text("compatibility"@), Compatibility::encode(m.compatibility)),
                (Tree::Text("health"@), Health::encode(m.health)),
                (Tree::Text("http"@), Http::encode(m.http)),
                (Tree::Text("log"@), Log::encode(m.log)),
                (Tree::Text("middleware"@), Table::<Vec<Middleware>>::encode(m.middleware)),
                (Tree::Text("notifications"@), Notifications::encode(m.notifications)),
                (Tree::Text("policy"@), Policy::encode(m.policy)),
                (Tree::Text("proxy"@), Proxy::encode(m.proxy)),
                (Tree::Text("redis"@), Redis::encode(m.redis)),
                (Tree::Text("reporting"@), Reporting::encode(m.reporting)),
                (Tree::Text("storage"@), Storage::encode(m.storage)),
                (Tree::Text("validation"@), Validation::encode(m.validation)),
                (Tree::Text("version"@), String::encode(m.version)),
            ],
        )
    }

    proof fn lemma_default_valid() {
        String::lemma_default_valid();
        Log::lemma_default_valid();
        Storage::lemma_default_valid();
        Table::<Parameters>::lemma_default_valid();
        Table::<Vec<Middleware>>::lemma_default_valid();
        Reporting::lemma_default_valid();
        Http::lemma_default_valid();
        Notifications::lemma_default_valid();
        Redis::lemma_default_valid();
        Health::lemma_default_valid();
        Proxy::lemma_default_valid();
        Compatibility::lemma_default_valid();
        Validation::lemma_default_valid();
        Policy::lemma_default_valid();
    }

    proof fn lemma_decode_valid(tree: Tree) {
        if let Tree::Dict(entries) = tree {
            lemma_field_valid::<String>(entries, "version"@);
            lemma_field_valid::<Log>(entries, "log"@);
            lemma_field_valid::<Storage>(entries, "storage"@);
            lemma_field_valid::<Table<Parameters>>(entries, "auth"@);
            lemma_field_valid::<Table<Vec<Middleware>>>(entries, "middleware"@);
            lemma_field_valid::<Reporting>(entries, "reporting"@);
            lemma_field_valid::<Http>(entries, "http"@);
            lemma_field_valid::<Notifications>(entries, "notifications"@);
            lemma_field_valid::<Redis>(entries, "redis"@);
            lemma_field_valid::<Health>(entries, "health"@);
            lemma_field_valid::<Proxy>(entries, "proxy"@);
            lemma_field_valid::<Compatibility>(entries, "compatibility"@);
            lemma_field_valid::<Validation>(entries, "validation"@);
            lemma_field_valid::<Policy>(entries, "policy"@);
        } else {
            Self::lemma_default_valid();
        }
    }

    proof fn lemma_round_trip(m: ConfigurationModel) {
        lemma_configuration_fields_1(m);
        lemma_configuration_fields_2(m);
        lemma_configuration_fields_3(m);
    }

    proof fn lemma_encode_orderly(m: ConfigurationModel) {
        let entries = Self::encode(m)->Dict_0;
        assert(text_keys_ascend(entries)) by {
            assert(key_before("auth"@, "compatibility"@)) by {
                reveal_strlit("auth");
                reveal_strlit("compatibility");
                lemma_ascii_before("auth"@, "compatibility"@, 0);
            }
            assert(key_before("compatibility"@, "health"@)) by {
                reveal_strlit("compatibility");
                reveal_strlit("health");
                lemma_ascii_before("compatibility"@, "health"@, 0);
            }
            assert(key_before("health"@, "http"@)) by {
                reveal_strlit("health");
                reveal_strlit("http");
                lemma_ascii_before("health"@, "http"@, 1);
            }
            assert(key_before("http"@, "log"@)) by {
                reveal_strlit("http");
                reveal_strlit("log");
                lemma_ascii_before("http"@, "log"@, 0);
            }
            assert(key_before("log"@, "middleware"@)) by {
                reveal_strlit("log");
                reveal_strlit("middleware");
                lemma_ascii_before("log"@, "middleware"@, 0);
            }
            assert(key_before("middleware"@, "notifications"@)) by {
                reveal_strlit("middleware");
                reveal_strlit("notifications");
                lemma_ascii_before("middleware"@, "notifications"@, 0);
            }
            assert(key_before("notifications"@, "policy"@)) by {
                reveal_strlit("notifications");
                reveal_strlit("policy");
                lemma_ascii_before("notifications"@, "policy"@, 0);
            }
            assert(key_before("policy"@, "proxy"@)) by {
                reveal_strlit("policy");
                reveal_strlit("proxy");
                lemma_ascii_before("policy"@, "proxy"@, 1);
            }
            assert(key_before("proxy"@, "redis"@)) by {
                reveal_strlit("proxy");
                reveal_strlit("redis");
                lemma_ascii_before("proxy"@, "redis"@, 0);
            }
            assert(key_before("redis"@, "reporting"@)) by {
                reveal_strlit("redis");
                reveal_strlit("reporting");
                lemma_ascii_before("redis"@, "reporting"@, 2);
            }
            assert(key_before("reporting"@, "storage"@)) by {
                reveal_strlit("reporting");
                reveal_strlit("storage");
                lemma_ascii_before("reporting"@, "storage"@, 0);
            }
            assert(key_before("storage"@, "validation"@)) by {
                reveal_strlit("storage");
                reveal_strlit("validation");
                lemma_ascii_before("storage"@, "validation"@, 0);
            }
            assert(key_before("validation"@, "version"@)) by {
                reveal_strlit("validation");
                reveal_strlit("version");
                lemma_ascii_before("validation"@, "version"@, 1);
            }
            lemma_ascend_by_neighbours(entries);
        }
        assert forall|i: int| 0 <= i < entries.len() implies orderly(
            (#[trigger] entries[i]).1,
        ) by {
            String::lemma_encode_orderly(m.version);
            Log::lemma_encode_orderly(m.log);
            Storage::lemma_encode_orderly(m.storage);
            Table::<Parameters>::lemma_encode_orderly(m.auth);
            Table::<Vec<Middleware>>::lemma_encode_orderly(m.middleware);
            Reporting::lemma_encode_orderly(m.reporting);
            Http::lemma_encode_orderly(m.http);
            Notifications::lemma_encode_orderly(m.notifications);
            Redis::lemma_encode_orderly(m.redis);
            Health::lemma_encode_orderly(m.health);
            Proxy::lemma_encode_orderly(m.proxy);
            Compatibility::lemma_encode_orderly(m.compatibility);
            Validation::lemma_encode_orderly(m.validation);
            Policy::lemma_encode_orderly(m.policy);
        }
    }

    fn default_value() -> (r: Configuration) {
        Configuration {
            version: String::default_value(),
            log: Log::default_value(),
            storage: Storage::default_value(),
            auth: Table::<Parameters>::default_value(),
            middleware: Table::<Vec<Middleware>>::default_value(),
            reporting: Reporting::default_value(),
            http: Http::default_value(),
            notifications: Notifications::default_value(),
            redis: Redis::default_value(),
            health: Health::default_value(),
            proxy: Proxy::default_value(),
            compatibility: Compatibility::default_value(),
            validation: Validation::default_value(),
            policy: Policy::default_value(),
        }
    }

    fn from_node(node: &Node) -> (r: Result<Configuration, ConfigError>) {
        match node {
            Node::Null => Ok(Self::default_value()),
            Node::Dict(entries) => {
                proof {
                    lemma_dict_tree(*entries);
                }
                let version = read_field::<String>(entries, "version")?;
                let log = read_field::<Log>(entries, "log")?;
                let storage = read_field::<Storage>(entries, "storage")?;
                let auth = read_field::<Table<Parameters>>(entries, "auth")?;
                let middleware = read_field::<Table<Vec<Middleware>>>(entries, "middleware")?;
                let reporting = read_field::<Reporting>(entries, "reporting")?;
                let http = read_field::<Http>(entries, "http")?;
                let notifications = read_field::<Notifications>(entries, "notifications")?;
                let redis = read_field::<Redis>(entries, "redis")?;
                let health = read_field::<Health>(entries, "health")?;
                let proxy = read_field::<Proxy>(entries, "proxy")?;
                let compatibility = read_field::<Compatibility>(entries, "compatibility")?;
                let validation = read_field::<Validation>(entries, "validation")?;
                let policy = read_field::<Policy>(entries, "policy")?;
                Ok(
                    Configuration {
                        version,
                        log,
                        storage,
                        auth,
                        middleware,
                        reporting,
                        http,
                        notifications,
                        redis,
                        health,
                        proxy,
                        compatibility,
                        validation,
                        policy,
                    },
                )
            },
            _ => Err(ConfigError::TypeMismatch(Expected::Dict)),
        }
    }

    fn to_node(&self) -> (node: Node) {
        let mut entries: Vec<(Node, Node)> = Vec::new();
        entries.push(entry("auth", self.auth.to_node()));
        entries.push(entry("compatibility", self.compatibility.to_node()));
        entries.push(entry("health", self.health.to_node()));
        entries.push(entry("http", self.http.to_node()));
        entries.push(entry("log", self.log.to_node()));
        entries.push(entry("middleware", self.middleware.to_node()));
        entries.push(entry("notifications", self.notifications.to_node()));
        entries.push(entry("policy", self.policy.to_node()));
        entries.push(entry("proxy", self.proxy.to_node()));
        entries.push(entry("redis", self.redis.to_node()));
        entries.push(entry("reporting", self.reporting.to_node()));
        entries.push(entry("storage", self.storage.to_node()));
        entries.push(entry("validation", self.validation.to_node()));
        entries.push(entry("version", self.version.to_node()));
        proof {
            lemma_dict_tree(entries);
            assert(tree_pairs(entries@) =~= Self::encode(self.model())->Dict_0);
        }
        Node::Dict(entries)
    }
}

impl Lenient for Configuration {
    proof fn lemma_null_is_default() {
    }
}

/// What a valid `Configuration` is written as under the keys from `auth` to `log`
/// reads back as the fields it was written from.
proof fn lemma_configuration_fields_1(m: ConfigurationModel)
    requires
        Configuration::valid(m),
    ensures
        decode_field::<Table<Parameters>>(
            Configuration::encode(m)->Dict_0,
            "auth"@,
        ) == Ok::<Seq<(Seq<char>, Seq<(Seq<char>, ParameterModel)>)>, Fault>(m.auth),
        decode_field::<Compatibility>(
            Configuration::encode(m)->Dict_0,
            "compatibility"@,
        ) == Ok::<CompatibilityModel, Fault>(m.compatibility),
        decode_field::<Health>(
            Configuration::encode(m)->Dict_0,
            "health"@,
        ) == Ok::<HealthModel, Fault>(m.health),
        decode_field::<Http>(
            Configuration::encode(m)->Dict_0,
            "http"@,
        ) == Ok::<HttpModel, Fault>(m.http),
        decode_field::<Log>(
            Configuration::encode(m)->Dict_0,
            "log"@,
        ) == Ok::<LogModel, Fault>(m.log),
{
    let entries = Configuration::encode(m)->Dict_0;
    assert(decode_field::<Table<Parameters>>(
        entries,
        "auth"@,
    ) == Ok::<Seq<(Seq<char>, Seq<(Seq<char>, ParameterModel)>)>, Fault>(m.auth)) by {
        reveal_strlit("auth");
        reveal_with_fuel(find_from, 2);
        Table::<Parameters>::lemma_round_trip(m.auth);
    }
    assert(decode_field::<Compatibility>(
        entries,
        "compatibility"@,
    ) == Ok::<CompatibilityModel, Fault>(m.compatibility)) by {
        reveal_strlit("auth");
        reveal_strlit("compatibility");
        assert("auth"@.len() == 4);
        assert("compatibility"@.len() == 13);
        reveal_with_fuel(find_from, 3);
        Compatibility::lemma_round_trip(m.compatibility);
    }
    assert(decode_field::<Health>(entries, "health"@) == Ok::<HealthModel, Fault>(m.health)) by {
        reveal_strlit("auth");
        reveal_strlit("compatibility");
        reveal_strlit("health");
        assert("auth"@.len() == 4);
        assert("health"@.len() == 6);
        assert("compatibility"@.len() == 13);
        reveal_with_fuel(find_from, 4);
        Health::lemma_round_trip(m.health);
    }
    assert(decode_field::<Http>(entries, "http"@) == Ok::<HttpModel, Fault>(m.http)) by {
        reveal_strlit("auth");
        reveal_strlit("compatibility");
        reveal_strlit("health");
        reveal_strlit("http");
        assert("auth"@[0] == 'a');
        assert("auth"@.len() == 4);
        assert("http"@[0] == 'h');
        assert("http"@.len() == 4);
        assert("health"@.len() == 6);
        assert("compatibility"@.len() == 13);
        reveal_with_fuel(find_from, 5);
        Http::lemma_round_trip(m.http);
    }
    assert(decode_field::<Log>(entries, "log"@) == Ok::<LogModel, Fault>(m.log)) by {
        reveal_strlit("auth");
        reveal_strlit("compatibility");
        reveal_strlit("health");
        reveal_strlit("http");
        reveal_strlit("log");
        assert("log"@.len() == 3);
        assert("auth"@[0] == 'a');
        assert("auth"@.len() == 4);
        assert("http"@[0] == 'h');
        assert("http"@.len() == 4);
        assert("health"@.len() == 6);
        assert("compatibility"@.len() == 13);
        reveal_with_fuel(find_from, 6);
        Log::lemma_round_trip(m.log);
    }
}

/// What a valid `Configuration` is written as under the keys from `middleware` to `redis`
/// reads back as the fields it was written from.
proof fn lemma_configuration_fields_2(m: ConfigurationModel)
    requires
        Configuration::valid(m),
    ensures
        decode_field::<Table<Vec<Middleware>>>(
            Configuration::encode(m)->Dict_0,
            "middleware"@,
        ) == Ok::<Seq<(Seq<char>, Seq<MiddlewareModel>)>, Fault>(m.middleware),
        decode_field::<Notifications>(
            Configuration::encode(m)->Dict_0,
            "notifications"@,
        ) == Ok::<NotificationsModel, Fault>(m.notifications),
        decode_field::<Policy>(
            Configuration::encode(m)->Dict_0,
            "policy"@,
        ) == Ok::<PolicyModel, Fault>(m.policy),
        decode_field::<Proxy>(
            Configuration::encode(m)->Dict_0,
            "proxy"@,
        ) == Ok::<ProxyModel, Fault>(m.proxy),
        decode_field::<Redis>(
            Configuration::encode(m)->Dict_0,
            "redis"@,
        ) == Ok::<RedisModel, Fault>(m.redis),
{
    let entries = Configuration::encode(m)->Dict_0;
    assert(decode_field::<Table<Vec<Middleware>>>(
        entries,
        "middleware"@,
    ) == Ok::<Seq<(Seq<char>, Seq<MiddlewareModel>)>, Fault>(m.middleware)) by {
        reveal_strlit("auth");
        reveal_strlit("compatibility");
        reveal_strlit("health");
        reveal_strlit("http");
        reveal_strlit("log");
        reveal_strlit("middleware");
        assert("log"@.len() == 3);
        assert("auth"@[0] == 'a');
        assert("auth"@.len() == 4);
        assert("http"@[0] == 'h');
        assert("http"@.len() == 4);
        assert("health"@.len() == 6);
        assert("middleware"@.len() == 10);
        assert("compatibility"@.len() == 13);
        reveal_with_fuel(find_from, 7);
        Table::<Vec<Middleware>>::lemma_round_trip(m.middleware);
    }
    assert(decode_field::<Notifications>(
        entries,
        "notifications"@,
    ) == Ok::<NotificationsModel, Fault>(m.notifications)) by {
        reveal_strlit("auth");
        reveal_strlit("compatibility");
        reveal_strlit("health");
        reveal_strlit("http");
        reveal_strlit("log");
        reveal_strlit("middleware");
        reveal_strlit("notifications");
        assert("log"@.len() == 3);
        assert("auth"@[0] == 'a');
        assert("auth"@.len() == 4);
        assert("http"@[0] == 'h');
        assert("http"@.len() == 4);
        assert("health"@.len() == 6);
        assert("middleware"@.len() == 10);
        assert("compatibility"@[0] == 'c');
        assert("compatibility"@.len() == 13);
        assert("notifications"@[0] == 'n');
        assert("notifications"@.len() == 13);
        reveal_with_fuel(find_from, 8);
        Notifications::lemma_round_trip(m.notifications);
    }
    assert(decode_field::<Policy>(entries, "policy"@) == Ok::<PolicyModel, Fault>(m.policy)) by {
        reveal_strlit("auth");
        reveal_strlit("compatibility");
        reveal_strlit("health");
        reveal_strlit("http");
        reveal_strlit("log");
        reveal_strlit("middleware");
        reveal_strlit("notifications");
        reveal_strlit("policy");
        assert("log"@.len() == 3);
        assert("auth"@[0] == 'a');
        assert("auth"@.len() == 4);
        assert("http"@[0] == 'h');
        assert("http"@.len() == 4);
        assert("health"@[0] == 'h');
        assert("health"@.len() == 6);
        assert("policy"@[0] == 'p');
        assert("policy"@.len() == 6);
        assert("middleware"@.len() == 10);
        assert("compatibility"@[0] == 'c');
        assert("compatibility"@.len() == 13);
        assert("notifications"@[0] == 'n');
        assert("notifications"@.len() == 13);
        reveal_with_fuel(find_from, 9);
        Policy::lemma_round_trip(m.policy);
    }
    assert(decode_field::<Proxy>(entries, "proxy"@) == Ok::<ProxyModel, Fault>(m.proxy)) by {
        reveal_strlit("auth");
        reveal_strlit("compatibility");
        reveal_strlit("health");
        reveal_strlit("http");
        reveal_strlit("log");
        reveal_strlit("middleware");
        reveal_strlit("notifications");
        reveal_strlit("policy");
        reveal_strlit("proxy");
        assert("log"@.len() == 3);
        assert("auth"@[0] == 'a');
        assert("auth"@.len() == 4);
        assert("http"@[0] == 'h');
        assert("http"@.len() == 4);
        assert("proxy"@.len() == 5);
        assert("health"@[0] == 'h');
        assert("health"@.len() == 6);
        assert("policy"@[0] == 'p');
        assert("policy"@.len() == 6);
        assert("middleware"@.len() == 10);
        assert("compatibility"@[0] == 'c');
        assert("compatibility"@.len() == 13);
        assert("notifications"@[0] == 'n');
        assert("notifications"@.len() == 13);
        reveal_with_fuel(find_from, 10);
        Proxy::lemma_round_trip(m.proxy);
    }
    assert(decode_field::<Redis>(entries, "redis"@) == Ok::<RedisModel, Fault>(m.redis)) by {
        reveal_strlit("auth");
        reveal_strlit("compatibility");
        reveal_strlit("health");
        reveal_strlit("http");
        reveal_strlit("log");
        reveal_strlit("middleware");
        reveal_strlit("notifications");
        reveal_strlit("policy");
        reveal_strlit("proxy");
        reveal_strlit("redis");
        assert("log"@.len() == 3);
        assert("auth"@[0] == 'a');
        assert("auth"@.len() == 4);
        assert("http"@[0] == 'h');
        assert("http"@.len() == 4);
        assert("proxy"@[0] == 'p');
        assert("proxy"@.len() == 5);
        assert("redis"@[0] == 'r');
        assert("redis"@.len() == 5);
        assert("health"@[0] == 'h');
        assert("health"@.len() == 6);
        assert("policy"@[0] == 'p');
        assert("policy"@.len() == 6);
        assert("middleware"@.len() == 10);
        assert("compatibility"@[0] == 'c');
        assert("compatibility"@.len() == 13);
        assert("notifications"@[0] == 'n');
        assert("notifications"@.len() == 13);
        reveal_with_fuel(find_from, 11);
        Redis::lemma_round_trip(m.redis);
    }
}

/// What a valid `Configuration` is written as under the keys from `reporting` to `version`
/// reads back as the fields it was written from.
proof fn lemma_configuration_fields_3(m: ConfigurationModel)
    requires
        Configuration::valid(m),
    ensures
        decode_field::<Reporting>(
            Configuration::encode(m)->Dict_0,
            "reporting"@,
        ) == Ok::<ReportingModel, Fault>(m.reporting),
        decode_field::<Storage>(
            Configuration::encode(m)->Dict_0,
            "storage"@,
        ) == Ok::<StorageModel, Fault>(m.storage),
        decode_field::<Validation>(
            Configuration::encode(m)->Dict_0,
            "validation"@,
        ) == Ok::<ValidationModel, Fault>(m.validation),
        decode_field::<String>(
            Configuration::encode(m)->Dict_0,
            "version"@,
        ) == Ok::<Seq<char>, Fault>(m.version),
{
    let entries = Configuration::encode(m)->Dict_0;
    assert(decode_field::<Reporting>(
        entries,
        "reporting"@,
    ) == Ok::<ReportingModel, Fault>(m.reporting)) by {
        reveal_strlit("auth");
        reveal_strlit("compatibility");
        reveal_strlit("health");
        reveal_strlit("http");
        reveal_strlit("log");
        reveal_strlit("middleware");
        reveal_strlit("notifications");
        reveal_strlit("policy");
        reveal_strlit("proxy");
        reveal_strlit("redis");
        reveal_strlit("reporting");
        assert("log"@.len() == 3);
        assert("auth"@[0] == 'a');
        assert("auth"@.len() == 4);
        assert("http"@[0] == 'h');
        assert("http"@.len() == 4);
        assert("proxy"@[0] == 'p');
        assert("proxy"@.len() == 5);
        assert("redis"@[0] == 'r');
        assert("redis"@.len() == 5);
        assert("health"@[0] == 'h');
        assert("health"@.len() == 6);
        assert("policy"@[0] == 'p');
        assert("policy"@.len() == 6);
        assert("reporting"@.len() == 9);
        assert("middleware"@.len() == 10);
        assert("compatibility"@[0] == 'c');
        assert("compatibility"@.len() == 13);
        assert("notifications"@[0] == 'n');
        assert("notifications"@.len() == 13);
        reveal_with_fuel(find_from, 12);
        Reporting::lemma_round_trip(m.reporting);
    }
    assert(decode_field::<Storage>(
        entries,
        "storage"@,
    ) == Ok::<StorageModel, Fault>(m.storage)) by {
        reveal_strlit("auth");
        reveal_strlit("compatibility");
        reveal_strlit("health");
        reveal_strlit("http");
        reveal_strlit("log");
        reveal_strlit("middleware");
        reveal_strlit("notifications");
        reveal_strlit("policy");
        reveal_strlit("proxy");
        reveal_strlit("redis");
        reveal_strlit("reporting");
        reveal_strlit("storage");
        assert("log"@.len() == 3);
        assert("auth"@[0] == 'a');
        assert("auth"@.len() == 4);
        assert("http"@[0] == 'h');
        assert("http"@.len() == 4);
        assert("proxy"@[0] == 'p');
        assert("proxy"@.len() == 5);
        assert("redis"@[0] == 'r');
        assert("redis"@.len() == 5);
        assert("health"@[0] == 'h');
        assert("health"@.len() == 6);
        assert("policy"@[0] == 'p');
        assert("policy"@.len() == 6);
        assert("storage"@.len() == 7);
        assert("reporting"@.len() == 9);
        assert("middleware"@.len() == 10);
        assert("compatibility"@[0] == 'c');
        assert("compatibility"@.len() == 13);
        assert("notifications"@[0] == 'n');
        assert("notifications"@.len() == 13);
        reveal_with_fuel(find_from, 13);
        Storage::lemma_round_trip(m.storage);
    }
    assert(decode_field::<Validation>(
        entries,
        "validation"@,
    ) == Ok::<ValidationModel, Fault>(m.validation)) by {
        reveal_strlit("auth");
        reveal_strlit("compatibility");
        reveal_strlit("health");
        reveal_strlit("http");
        reveal_strlit("log");
        reveal_strlit("middleware");
        reveal_strlit("notifications");
        reveal_strlit("policy");
        reveal_strlit("proxy");
        reveal_strlit("redis");
        reveal_strlit("reporting");
        reveal_strlit("storage");
        reveal_strlit("validation");
        assert("log"@.len() == 3);
        assert("auth"@[0] == 'a');
        assert("auth"@.len() == 4);
        assert("http"@[0] == 'h');
        assert("http"@.len() == 4);
        assert("proxy"@[0] == 'p');
        assert("proxy"@.len() == 5);
        assert("redis"@[0] == 'r');
        assert("redis"@.len() == 5);
        assert("health"@[0] == 'h');
        assert("health"@.len() == 6);
        assert("policy"@[0] == 'p');
        assert("policy"@.len() == 6);
        assert("storage"@.len() == 7);
        assert("reporting"@.len() == 9);
        assert("middleware"@[0] == 'm');
        assert("middleware"@.len() == 10);
        assert("validation"@[0] == 'v');
        assert("validation"@.len() == 10);
        assert("compatibility"@[0] == 'c');
        assert("compatibility"@.len() == 13);
        assert("notifications"@[0] == 'n');
        assert("notifications"@.len() == 13);
        reveal_with_fuel(find_from, 14);
        Validation::lemma_round_trip(m.validation);
    }
    assert(decode_field::<String>(entries, "version"@) == Ok::<Seq<char>, Fault>(m.version)) by {
        reveal_strlit("auth");
        reveal_strlit("compatibility");
        reveal_strlit("health");
        reveal_strlit("http");
        reveal_strlit("log");
        reveal_strlit("middleware");
        reveal_strlit("notifications");
        reveal_strlit("policy");
        reveal_strlit("proxy");
        reveal_strlit("redis");
        reveal_strlit("reporting");
        reveal_strlit("storage");
        reveal_strlit("validation");
        reveal_strlit("version");
        assert("log"@.len() == 3);
        assert("auth"@[0] == 'a');
        assert("auth"@.len() == 4);
        assert("http"@[0] == 'h');
        assert("http"@.len() == 4);
        assert("proxy"@[0] == 'p');
        assert("proxy"@.len() == 5);
        assert("redis"@[0] == 'r');
        assert("redis"@.len() == 5);
        assert("health"@[0] == 'h');
        assert("health"@.len() == 6);
        assert("policy"@[0] == 'p');
        assert("policy"@.len() == 6);
        assert("storage"@[0] == 's');
        assert("storage"@.len() == 7);
        assert("version"@[0] == 'v');
        assert("version"@.len() == 7);
        assert("reporting"@.len() == 9);
        assert("middleware"@[0] == 'm');
        assert("middleware"@.len() == 10);
        assert("validation"@[0] == 'v');
        assert("validation"@.len() == 10);
        assert("compatibility"@[0] == 'c');
        assert("compatibility"@.len() == 13);
        assert("notifications"@[0] == 'n');
        assert("notifications"@.len() == 13);
        reveal_with_fuel(find_from, 15);
        String::lemma_round_trip(m.version);
    }
}

/// What a text is read as: a syntax error with the reader's message where
/// the text is no document, else what the document's tree is read as.
pub open spec fn configuration_of_text(text: Seq<char>) -> Result<ConfigurationModel, Fault> {
    match yaml_parsed(text) {
        Ok(tree) => Configuration::decode(tree),
        Err(message) => Err(Fault::Syntax(message)),
    }
}

/// What a configuration is written as: the writer's text for its tree where
/// the tree can be written, and an error where it cannot or where the writer
/// refuses it.
pub open spec fn text_of_configuration(m: ConfigurationModel) -> Result<Seq<char>, Fault> {
    let tree = Configuration::encode(m);
    if writable(tree) {
        match yaml_written(tree) {
            Ok(text) => Ok(text),
            Err(message) => Err(Fault::Emit(message)),
        }
    } else {
        Err(Fault::TypeMismatch(Expected::Writable))
    }
}

/// Reads a configuration from the text of a document. Reading is all or
/// nothing: the first part that cannot be read fails the whole.
pub fn parse_str(content: &str) -> (r: Result<Configuration, ConfigError>)
    ensures
        outcome(r) == configuration_of_text(content@),
{
    let node = read_document(content)?;
    Configuration::from_node(&node)
}

/// Writes a configuration as the text of a document, its keys in ascending
/// order at every level.
pub fn serialize(config: &Configuration) -> (r: Result<String, ConfigError>)
    ensures
        match r {
            Ok(text) => text_of_configuration(config.model()) == Ok::<Seq<char>, Fault>(text@),
            Err(e) => text_of_configuration(config.model()) == Err::<Seq<char>, Fault>(e@),
        },
{
    let node = config.to_node();
    write_document(&node)
}

/// Whatever tree a configuration was read from, writing the configuration
/// and reading it again gives the same configuration, and writing that one
/// gives the same tree again.
pub proof fn lemma_read_write_read(tree: Tree)
    requires
        Configuration::decode(tree) is Ok,
    ensures
        ({
            let first = Configuration::decode(tree)->Ok_0;
            let written = Configuration::encode(first);
            &&& Configuration::decode(written) == Ok::<ConfigurationModel, Fault>(first)
            &&& Configuration::encode(Configuration::decode(written)->Ok_0) == written
        }),
{
    Configuration::lemma_decode_valid(tree);
    Configuration::lemma_round_trip(Configuration::decode(tree)->Ok_0);
}

/// Where the writer's text reads back as the tree that was written, a valid
/// configuration that is written as text and read from that text is itself,
/// and is written as the same text again.
pub proof fn lemma_text_round_trip(m: ConfigurationModel, text: Seq<char>)
    requires
        Configuration::valid(m),
        text_of_configuration(m) == Ok::<Seq<char>, Fault>(text),
    ensures
        yaml_parsed(text) == Ok::<Tree, Seq<char>>(Configuration::encode(m)) ==> {
            &&& configuration_of_text(text) == Ok::<ConfigurationModel, Fault>(m)
            &&& text_of_configuration(configuration_of_text(text)->Ok_0) == Ok::<
                Seq<char>,
                Fault,
            >(text)
        },
{
    Configuration::lemma_round_trip(m);
}

/// A valid configuration is written in canonical order. So it can be
/// written exactly where its numbers are spelled as the writer spells them.
pub proof fn lemma_written_in_order(m: ConfigurationModel)
    requires
        Configuration::valid(m),
    ensures
        orderly(Configuration::encode(m)),
        writable(Configuration::encode(m)) == spelled(Configuration::encode(m)),
{
    Configuration::lemma_encode_orderly(m);
    lemma_writable(Configuration::encode(m));
}

/// A bag takes every key of its mapping, and what it took stays: whatever
/// tree a bag was read from, writing the bag and reading it again gives the
/// same bag.
pub proof fn lemma_bag_read_write_read(tree: Tree)
    requires
        Parameters::decode(tree) is Ok,
    ensures
        Parameters::decode(Parameters::encode(Parameters::decode(tree)->Ok_0))
            == Parameters::decode(tree),
{
    Parameters::lemma_decode_valid(tree);
    Parameters::lemma_round_trip(Parameters::decode(tree)->Ok_0);
}

/// The empty document, which reads as null, and the document that holds
/// nothing but a version both read without error. What they give has one
/// second in every duration, nothing in every collection, none of the
/// optional parts of the storage section, and the file system without
/// options as the storage driver.
pub proof fn lemma_default_complete(version: Seq<char>)
    ensures
        Configuration::decode(Tree::Null) == Ok::<ConfigurationModel, Fault>(
            Configuration::default_model(),
        ),
        Configuration::decode(Tree::Dict(seq![(Tree::Text("version"@), Tree::Text(version))]))
            == Ok::<ConfigurationModel, Fault>(
            ConfigurationModel { version, ..Configuration::default_model() },
        ),
        ({
            let d = Configuration::default_model();
            let one = Duration::one_second();
            &&& d.http.drain_timeout == one
            &&& d.redis.dial_timeout == one
            &&& d.redis.read_timeout == one
            &&& d.redis.write_timeout == one
            &&& d.redis.pool.idle_timeout == one
            &&& d.health.storage_driver.interval == one
            &&& d.storage.media == StorageMediaModel::Filesystem(Seq::empty())
            &&& d.storage.maintenance is None
            &&& d.storage.cache is None
            &&& d.storage.delete is None
            &&& d.storage.redirect is None
            &&& d.version.len() == 0
            &&& d.auth.len() == 0
            &&& d.middleware.len() == 0
            &&& d.log.fields.len() == 0
            &&& d.log.hooks.len() == 0
            &&& d.http.headers.len() == 0
            &&& d.http.tls.client_cas.len() == 0
            &&& d.http.tls.lets_encrypt.hosts.len() == 0
            &&& d.notifications.endpoints.len() == 0
            &&& d.health.file_checkers.len() == 0
            &&& d.health.http_checkers.len() == 0
            &&& d.health.tcp_checkers.len() == 0
            &&& d.validation.manifests.urls.allow.len() == 0
            &&& d.validation.manifests.urls.deny.len() == 0
            &&& d.policy.repository.classes.len() == 0
        }),
{
    reveal_strlit("version");
    reveal_strlit("log");
    reveal_strlit("storage");
    reveal_strlit("auth");
    reveal_strlit("middleware");
    reveal_strlit("reporting");
    reveal_strlit("http");
    reveal_strlit("notifications");
    reveal_strlit("redis");
    reveal_strlit("health");
    reveal_strlit("proxy");
    reveal_strlit("compatibility");
    reveal_strlit("validation");
    reveal_strlit("policy");
    assert("version"@.len() == 7);
    assert("version"@[0] == 'v');
    assert("log"@.len() == 3);
    assert("storage"@[0] == 's');
    assert("auth"@[0] == 'a');
    assert("middleware"@[0] == 'm');
    assert("reporting"@.len() == 9);
    assert("http"@[0] == 'h');
    assert("notifications"@.len() == 13);
    assert("redis"@.len() == 5);
    assert("health"@.len() == 6);
    assert("proxy"@.len() == 5);
    assert("compatibility"@.len() == 13);
    assert("validation"@[0] == 'v');
    assert("validation"@.len() == 10);
    assert("policy"@.len() == 6);
    let entries = seq![(Tree::Text("version"@), Tree::Text(version))];
    lemma_find_at(entries, "version"@, 0, 0);
    lemma_find_none(entries, "log"@, 0);
    lemma_find_none(entries, "storage"@, 0);
    lemma_find_none(entries, "auth"@, 0);
    lemma_find_none(entries, "middleware"@, 0);
    lemma_find_none(entries, "reporting"@, 0);
    lemma_find_none(entries, "http"@, 0);
    lemma_find_none(entries, "notifications"@, 0);
    lemma_find_none(entries, "redis"@, 0);
    lemma_find_none(entries, "health"@, 0);
    lemma_find_none(entries, "proxy"@, 0);
    lemma_find_none(entries, "compatibility"@, 0);
    lemma_find_none(entries, "validation"@, 0);
    lemma_find_none(entries, "policy"@, 0);
}

} // verus!
