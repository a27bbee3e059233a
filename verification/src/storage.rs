//! The storage section: the driver in use and what goes with it.

use crate::codec::{
    decode_field, entry, find, find_from, lemma_field_round_trip, lemma_field_valid, lemma_find_at,
    lemma_find_none, lookup, read_field, Codec, Lenient, Solid,
};
use crate::error::{ConfigError, Expected, Fault};
use crate::parameter::{Parameter, ParameterModel, Parameters};
use crate::table::Table;
use crate::text::{key_before, lemma_ascii_before};
use crate::tree::{
    lemma_ascend_by_neighbours, lemma_dict_tree, orderly, text_keys_ascend, tree_pairs, Node, Tree,
};
use vstd::prelude::*;

verus! {

/// Upkeep of the storage.
#[derive(Debug, PartialEq)]
pub struct Maintenance {
    /// Purging of stale uploads.
    pub uploadpurging: Parameters,
    /// Read-only mode.
    pub readonly: Parameters,
}

/// `Maintenance` as a mathematical value.
pub struct MaintenanceModel {
    pub uploadpurging: Seq<(Seq<char>, ParameterModel)>,
    pub readonly: Seq<(Seq<char>, ParameterModel)>,
}

impl Codec for Maintenance {
    type Model = MaintenanceModel;

    open spec fn model(&self) -> MaintenanceModel {
        MaintenanceModel {
            uploadpurging: self.uploadpurging.model(),
            readonly: self.readonly.model(),
        }
    }

    open spec fn valid(m: MaintenanceModel) -> bool {
        &&& Parameters::valid(m.uploadpurging)
        &&& Parameters::valid(m.readonly)
    }

    open spec fn default_model() -> MaintenanceModel {
        MaintenanceModel {
            uploadpurging: Parameters::default_model(),
            readonly: Parameters::default_model(),
        }
    }

    /// An explicit null reads as the default. A mapping is read field by
    /// field: a field whose key is missing takes its default, keys that
    /// name no field are passed over, and the first field in the order below
    /// that cannot be read decides the error. Anything else is no section.
    open spec fn decode(tree: Tree) -> Result<MaintenanceModel, Fault> {
        match tree {
            Tree::Null => Ok(Self::default_model()),
            Tree::Dict(entries) => {
                let uploadpurging = decode_field::<Parameters>(entries, "uploadpurging"@);
                let readonly = decode_field::<Parameters>(entries, "readonly"@);
                if uploadpurging is Err {
                    Err(uploadpurging->Err_0)
                } else if readonly is Err {
                    Err(readonly->Err_0)
                } else {
                    Ok(
                        MaintenanceModel {
                            uploadpurging: uploadpurging->Ok_0,
                            readonly: readonly->Ok_0,
                        },
                    )
                }
            },
            _ => Err(Fault::TypeMismatch(Expected::Dict)),
        }
    }

    /// A mapping with one entry for every field, in ascending key order.
    open spec fn encode(m: MaintenanceModel) -> Tree {
        Tree::Dict(
            seq![
                (Tree::Text("readonly"@), Parameters::encode(m.readonly)),
                (Tree::Text("uploadpurging"@), Parameters::encode(m.uploadpurging)),
            ],
        )
    }

    proof fn lemma_default_valid() {
        Parameters::lemma_default_valid();
    }

    proof fn lemma_decode_valid(tree: Tree) {
        if let Tree::Dict(entries) = tree {
            lemma_field_valid::<Parameters>(entries, "uploadpurging"@);
            lemma_field_valid::<Parameters>(entries, "readonly"@);
        } else {
            Self::lemma_default_valid();
        }
    }

    proof fn lemma_round_trip(m: MaintenanceModel) {
        let entries = Self::encode(m)->Dict_0;
        assert(decode_field::<Parameters>(
            entries,
            "readonly"@,
        ) == Ok::<Seq<(Seq<char>, ParameterModel)>, Fault>(m.readonly)) by {
            reveal_strlit("readonly");
            reveal_with_fuel(find_from, 2);
            Parameters::lemma_round_trip(m.readonly);
        }
        assert(decode_field::<Parameters>(
            entries,
            "uploadpurging"@,
        ) == Ok::<Seq<(Seq<char>, ParameterModel)>, Fault>(m.uploadpurging)) by {
            reveal_strlit("readonly");
            reveal_strlit("uploadpurging");
            assert("readonly"@.len() == 8);
            assert("uploadpurging"@.len() == 13);
            reveal_with_fuel(find_from, 3);
            Parameters::lemma_round_trip(m.uploadpurging);
        }
    }

    proof fn lemma_encode_orderly(m: MaintenanceModel) {
        let entries = Self::encode(m)->Dict_0;
        assert(text_keys_ascend(entries)) by {
            assert(key_before("readonly"@, "uploadpurging"@)) by {
                reveal_strlit("readonly");
                reveal_strlit("uploadpurging");
                lemma_ascii_before("readonly"@, "uploadpurging"@, 0);
            }
            lemma_ascend_by_neighbours(entries);
        }
        assert forall|i: int| 0 <= i < entries.len() implies orderly(
            (#[trigger] entries[i]).1,
        ) by {
            Parameters::lemma_encode_orderly(m.uploadpurging);
            Parameters::lemma_encode_orderly(m.readonly);
        }
    }

    fn default_value() -> (r: Maintenance) {
        Maintenance {
            uploadpurging: Parameters::default_value(),
            readonly: Parameters::default_value(),
        }
    }

    fn from_node(node: &Node) -> (r: Result<Maintenance, ConfigError>) {
        match node {
            Node::Null => Ok(Self::default_value()),
            Node::Dict(entries) => {
                proof {
                    lemma_dict_tree(*entries);
                }
                let uploadpurging = read_field::<Parameters>(entries, "uploadpurging")?;
                let readonly = read_field::<Parameters>(entries, "readonly")?;
                Ok(Maintenance { uploadpurging, readonly })
            },
            _ => Err(ConfigError::TypeMismatch(Expected::Dict)),
        }
    }

    fn to_node(&self) -> (node: Node) {
        let mut entries: Vec<(Node, Node)> = Vec::new();
        entries.push(entry("readonly", self.readonly.to_node()));
        entries.push(entry("uploadpurging", self.uploadpurging.to_node()));
        proof {
            lemma_dict_tree(entries);
            assert(tree_pairs(entries@) =~= Self::encode(self.model())->Dict_0);
        }
        Node::Dict(entries)
    }
}

impl Lenient for Maintenance {
    proof fn lemma_null_is_default() {
    }
}

impl Solid for Maintenance {
    proof fn lemma_never_null(m: MaintenanceModel) {
    }
}

/// Options of the cache in front of the storage.
#[derive(Debug, PartialEq)]
pub struct Cache(pub Parameters);

impl Codec for Cache {
    type Model = Seq<(Seq<char>, ParameterModel)>;

    open spec fn model(&self) -> Seq<(Seq<char>, ParameterModel)> {
        self.0.model()
    }

    open spec fn valid(m: Seq<(Seq<char>, ParameterModel)>) -> bool {
        Parameters::valid(m)
    }

    open spec fn default_model() -> Seq<(Seq<char>, ParameterModel)> {
        Parameters::default_model()
    }

    open spec fn decode(tree: Tree) -> Result<Seq<(Seq<char>, ParameterModel)>, Fault> {
        Parameters::decode(tree)
    }

    open spec fn encode(m: Seq<(Seq<char>, ParameterModel)>) -> Tree {
        Parameters::encode(m)
    }

    proof fn lemma_default_valid() {
        Parameters::lemma_default_valid();
    }

    proof fn lemma_decode_valid(tree: Tree) {
        Parameters::lemma_decode_valid(tree);
    }

    proof fn lemma_round_trip(m: Seq<(Seq<char>, ParameterModel)>) {
        Parameters::lemma_round_trip(m);
    }

    proof fn lemma_encode_orderly(m: Seq<(Seq<char>, ParameterModel)>) {
        Parameters::lemma_encode_orderly(m);
    }

    fn default_value() -> (r: Cache) {
        Cache(Parameters::default_value())
    }

    fn from_node(node: &Node) -> (r: Result<Cache, ConfigError>) {
        match Parameters::from_node(node) {
            Ok(options) => Ok(Cache(options)),
            Err(e) => Err(e),
        }
    }

    fn to_node(&self) -> (node: Node) {
        self.0.to_node()
    }
}

impl Lenient for Cache {
    proof fn lemma_null_is_default() {
    }
}

impl Solid for Cache {
    proof fn lemma_never_null(m: Seq<(Seq<char>, ParameterModel)>) {
    }
}

/// Options of deletion.
#[derive(Debug, PartialEq)]
pub struct Delete(pub Parameters);

impl Codec for Delete {
    type Model = Seq<(Seq<char>, ParameterModel)>;

    open spec fn model(&self) -> Seq<(Seq<char>, ParameterModel)> {
        self.0.model()
    }

    open spec fn valid(m: Seq<(Seq<char>, ParameterModel)>) -> bool {
        Parameters::valid(m)
    }

    open spec fn default_model() -> Seq<(Seq<char>, ParameterModel)> {
        Parameters::default_model()
    }

    open spec fn decode(tree: Tree) -> Result<Seq<(Seq<char>, ParameterModel)>, Fault> {
        Parameters::decode(tree)
    }

    open spec fn encode(m: Seq<(Seq<char>, ParameterModel)>) -> Tree {
        Parameters::encode(m)
    }

    proof fn lemma_default_valid() {
        Parameters::lemma_default_valid();
    }

    proof fn lemma_decode_valid(tree: Tree) {
        Parameters::lemma_decode_valid(tree);
    }

    proof fn lemma_round_trip(m: Seq<(Seq<char>, ParameterModel)>) {
        Parameters::lemma_round_trip(m);
    }

    proof fn lemma_encode_orderly(m: Seq<(Seq<char>, ParameterModel)>) {
        Parameters::lemma_encode_orderly(m);
    }

    fn default_value() -> (r: Delete) {
        Delete(Parameters::default_value())
    }

    fn from_node(node: &Node) -> (r: Result<Delete, ConfigError>) {
        match Parameters::from_node(node) {
            Ok(options) => Ok(Delete(options)),
            Err(e) => Err(e),
        }
    }

    fn to_node(&self) -> (node: Node) {
        self.0.to_node()
    }
}

impl Lenient for Delete {
    proof fn lemma_null_is_default() {
    }
}

impl Solid for Delete {
    proof fn lemma_never_null(m: Seq<(Seq<char>, ParameterModel)>) {
    }
}

/// Options of redirection to the storage.
#[derive(Debug, PartialEq)]
pub struct Redirect(pub Parameters);

impl Codec for Redirect {
    type Model = Seq<(Seq<char>, ParameterModel)>;

    open spec fn model(&self) -> Seq<(Seq<char>, ParameterModel)> {
        self.0.model()
    }

    open spec fn valid(m: Seq<(Seq<char>, ParameterModel)>) -> bool {
        Parameters::valid(m)
    }

    open spec fn default_model() -> Seq<(Seq<char>, ParameterModel)> {
        Parameters::default_model()
    }

    open spec fn decode(tree: Tree) -> Result<Seq<(Seq<char>, ParameterModel)>, Fault> {
        Parameters::decode(tree)
    }

    open spec fn encode(m: Seq<(Seq<char>, ParameterModel)>) -> Tree {
        Parameters::encode(m)
    }

    proof fn lemma_default_valid() {
        Parameters::lemma_default_valid();
    }

    proof fn lemma_decode_valid(tree: Tree) {
        Parameters::lemma_decode_valid(tree);
    }

    proof fn lemma_round_trip(m: Seq<(Seq<char>, ParameterModel)>) {
        Parameters::lemma_round_trip(m);
    }

    proof fn lemma_encode_orderly(m: Seq<(Seq<char>, ParameterModel)>) {
        Parameters::lemma_encode_orderly(m);
    }

    fn default_value() -> (r: Redirect) {
        Redirect(Parameters::default_value())
    }

    fn from_node(node: &Node) -> (r: Result<Redirect, ConfigError>) {
        match Parameters::from_node(node) {
            Ok(options) => Ok(Redirect(options)),
            Err(e) => Err(e),
        }
    }

    fn to_node(&self) -> (node: Node) {
        self.0.to_node()
    }
}

impl Lenient for Redirect {
    proof fn lemma_null_is_default() {
    }
}

impl Solid for Redirect {
    proof fn lemma_never_null(m: Seq<(Seq<char>, ParameterModel)>) {
    }
}

/// The storage driver in use, with its options. Which one it is shows in the
/// storage section by the key that is present: `filesystem`, `s3` or
/// `inmemory`.
#[derive(Debug, PartialEq)]
pub enum StorageMedia {
    /// The local file system, with the driver's options.
    Filesystem(Table<Parameter>),
    /// Amazon S3, with the driver's options.
    S3(Table<Parameter>),
    /// Memory only. It has no options.
    InMemory,
}

/// `StorageMedia` as a mathematical value.
pub enum StorageMediaModel {
    /// See `StorageMedia::Filesystem`.
    Filesystem(Seq<(Seq<char>, ParameterModel)>),
    /// See `StorageMedia::S3`.
    S3(Seq<(Seq<char>, ParameterModel)>),
    /// See `StorageMedia::InMemory`.
    InMemory,
}

/// The mathematical value of a driver.
pub open spec fn media_model(media: StorageMedia) -> StorageMediaModel {
    match media {
        StorageMedia::Filesystem(bag) => StorageMediaModel::Filesystem(bag.model()),
        StorageMedia::S3(bag) => StorageMediaModel::S3(bag.model()),
        StorageMedia::InMemory => StorageMediaModel::InMemory,
    }
}

/// Whether a driver's options are a valid table.
pub open spec fn media_valid(m: StorageMediaModel) -> bool {
    match m {
        StorageMediaModel::Filesystem(bag) => Table::<Parameter>::valid(bag),
        StorageMediaModel::S3(bag) => Table::<Parameter>::valid(bag),
        StorageMediaModel::InMemory => true,
    }
}

/// The driver that the keys of a storage section select. The keys are tried
/// in the fixed order `filesystem`, `s3`, `inmemory`, and the first that is
/// present decides, whatever else is present and wherever it stands. The
/// value under `filesystem` or `s3` is read as the driver's options; the
/// value under `inmemory` is not looked at. Where none of the three is
/// present the driver is the file system without options.
pub open spec fn select_media(entries: Seq<(Tree, Tree)>) -> Result<StorageMediaModel, Fault> {
    match find(entries, "filesystem"@) {
        Some(options) => match Table::<Parameter>::decode(options) {
            Ok(bag) => Ok(StorageMediaModel::Filesystem(bag)),
            Err(e) => Err(e),
        },
        None => match find(entries, "s3"@) {
            Some(options) => match Table::<Parameter>::decode(options) {
                Ok(bag) => Ok(StorageMediaModel::S3(bag)),
                Err(e) => Err(e),
            },
            None => match find(entries, "inmemory"@) {
                Some(_) => Ok(StorageMediaModel::InMemory),
                None => Ok(StorageMediaModel::Filesystem(Seq::empty())),
            },
        },
    }
}

/// The entry that shows a driver in a storage section.
pub open spec fn media_entry(m: StorageMediaModel) -> (Tree, Tree) {
    match m {
        StorageMediaModel::Filesystem(bag) => (
            Tree::Text("filesystem"@),
            Table::<Parameter>::encode(bag),
        ),
        StorageMediaModel::S3(bag) => (Tree::Text("s3"@), Table::<Parameter>::encode(bag)),
        StorageMediaModel::InMemory => (Tree::Text("inmemory"@), Tree::Null),
    }
}

/// Whatever driver is selected is valid.
pub proof fn lemma_select_valid(entries: Seq<(Tree, Tree)>)
    ensures
        select_media(entries) matches Ok(m) ==> media_valid(m),
{
    if let Some(options) = find(entries, "filesystem"@) {
        Table::<Parameter>::lemma_decode_valid(options);
    } else if let Some(options) = find(entries, "s3"@) {
        Table::<Parameter>::lemma_decode_valid(options);
    }
}

/// Selects the driver of a storage section from its entries.
pub fn select(entries: &Vec<(Node, Node)>) -> (r: Result<StorageMedia, ConfigError>)
    ensures
        match r {
            Ok(media) => select_media(tree_pairs(entries@)) == Ok::<StorageMediaModel, Fault>(
                media_model(media),
            ),
            Err(e) => select_media(tree_pairs(entries@)) == Err::<StorageMediaModel, Fault>(e@),
        },
{
    if let Some(options) = lookup(entries, "filesystem") {
        match Table::<Parameter>::from_node(options) {
            Ok(bag) => Ok(StorageMedia::Filesystem(bag)),
            Err(e) => Err(e),
        }
    } else if let Some(options) = lookup(entries, "s3") {
        match Table::<Parameter>::from_node(options) {
            Ok(bag) => Ok(StorageMedia::S3(bag)),
            Err(e) => Err(e),
        }
    } else if lookup(entries, "inmemory").is_some() {
        Ok(StorageMedia::InMemory)
    } else {
        Ok(StorageMedia::default())
    }
}

impl StorageMedia {
    /// The entry that shows the driver in a storage section.
    pub fn to_entry(&self) -> (r: (Node, Node))
        ensures
            (r.0@, r.1@) == media_entry(media_model(*self)),
    {
        match self {
            StorageMedia::Filesystem(bag) => entry("filesystem", bag.to_node()),
            StorageMedia::S3(bag) => entry("s3", bag.to_node()),
            StorageMedia::InMemory => entry("inmemory", Node::Null),
        }
    }
}

impl Default for StorageMedia {
    /// The file system without options.
    fn default() -> (r: StorageMedia)
        ensures
            media_model(r) == StorageMediaModel::Filesystem(Seq::empty()),
    {
        StorageMedia::Filesystem(Table::new())
    }
}

impl Codec for StorageMedia {
    type Model = StorageMediaModel;

    open spec fn model(&self) -> StorageMediaModel {
        media_model(*self)
    }

    open spec fn valid(m: StorageMediaModel) -> bool {
        media_valid(m)
    }

    open spec fn default_model() -> StorageMediaModel {
        StorageMediaModel::Filesystem(Seq::empty())
    }

    /// The tree is a storage section: an explicit null reads as the default,
    /// a mapping as the driver that its keys select.
    open spec fn decode(tree: Tree) -> Result<StorageMediaModel, Fault> {
        match tree {
            Tree::Null => Ok(Self::default_model()),
            Tree::Dict(entries) => select_media(entries),
            _ => Err(Fault::TypeMismatch(Expected::Dict)),
        }
    }

    /// A storage section with the one entry that shows the driver.
    open spec fn encode(m: StorageMediaModel) -> Tree {
        Tree::Dict(seq![media_entry(m)])
    }

    proof fn lemma_default_valid() {
    }

    proof fn lemma_decode_valid(tree: Tree) {
        if let Tree::Dict(entries) = tree {
            lemma_select_valid(entries);
        }
    }

    proof fn lemma_round_trip(m: StorageMediaModel) {
        reveal_strlit("filesystem");
        reveal_strlit("inmemory");
        reveal_strlit("s3");
        assert("filesystem"@.len() == 10);
        assert("inmemory"@.len() == 8);
        assert("s3"@.len() == 2);
        let entries = Self::encode(m)->Dict_0;
        match m {
            StorageMediaModel::Filesystem(bag) => {
                lemma_find_at(entries, "filesystem"@, 0, 0);
                Table::<Parameter>::lemma_round_trip(bag);
            },
            StorageMediaModel::S3(bag) => {
                lemma_find_none(entries, "filesystem"@, 0);
                lemma_find_at(entries, "s3"@, 0, 0);
                Table::<Parameter>::lemma_round_trip(bag);
            },
            StorageMediaModel::InMemory => {
                lemma_find_none(entries, "filesystem"@, 0);
                lemma_find_none(entries, "s3"@, 0);
                lemma_find_at(entries, "inmemory"@, 0, 0);
            },
        }
    }

    proof fn lemma_encode_orderly(m: StorageMediaModel) {
        match m {
            StorageMediaModel::Filesystem(bag) => {
                Table::<Parameter>::lemma_encode_orderly(bag);
            },
            StorageMediaModel::S3(bag) => {
                Table::<Parameter>::lemma_encode_orderly(bag);
            },
            StorageMediaModel::InMemory => {},
        }
        let entries = Self::encode(m)->Dict_0;
        assert(entries[0] == media_entry(m));
        assert(entries[0].0 is Text);
        assert(orderly(entries[0].1));
        lemma_ascend_by_neighbours(entries);
    }

    fn default_value() -> (r: StorageMedia) {
        StorageMedia::default()
    }

    fn from_node(node: &Node) -> (r: Result<StorageMedia, ConfigError>) {
        match node {
            Node::Null => Ok(Self::default_value()),
            Node::Dict(entries) => {
                proof {
                    lemma_dict_tree(*entries);
                }
                select(entries)
            },
            _ => Err(ConfigError::TypeMismatch(Expected::Dict)),
        }
    }

    fn to_node(&self) -> (node: Node) {
        let mut entries: Vec<(Node, Node)> = Vec::new();
        entries.push(self.to_entry());
        proof {
            lemma_dict_tree(entries);
            assert(tree_pairs(entries@) =~= Self::encode(self.model())->Dict_0);
        }
        Node::Dict(entries)
    }
}

impl Lenient for StorageMedia {
    proof fn lemma_null_is_default() {
    }
}

/// The storage section: the driver in use, and four parts that each may be
/// left out.
#[derive(Debug, PartialEq)]
pub struct Storage {
    /// The driver in use. It has no key of its own: the key that names the
    /// driver stands among the other keys of the section.
    pub media: StorageMedia,
    /// Upkeep of the storage.
    pub maintenance: Option<Maintenance>,
    /// The cache in front of the storage.
    pub cache: Option<Cache>,
    /// Deletion.
    pub delete: Option<Delete>,
    /// Redirection to the storage.
    pub redirect: Option<Redirect>,
}

/// `Storage` as a mathematical value.
pub struct StorageModel {
    pub media: StorageMediaModel,
    pub maintenance: Option<MaintenanceModel>,
    pub cache: Option<Seq<(Seq<char>, ParameterModel)>>,
    pub delete: Option<Seq<(Seq<char>, ParameterModel)>>,
    pub redirect: Option<Seq<(Seq<char>, ParameterModel)>>,
}

impl Codec for Storage {
    type Model = StorageModel;

    open spec fn model(&self) -> StorageModel {
        StorageModel {
            media: self.media.model(),
            maintenance: self.maintenance.model(),
            cache: self.cache.model(),
            delete: self.delete.model(),
            redirect: self.redirect.model(),
        }
    }

    open spec fn valid(m: StorageModel) -> bool {
        &&& StorageMedia::valid(m.media)
        &&& Option::<Maintenance>::valid(m.maintenance)
        &&& Option::<Cache>::valid(m.cache)
        &&& Option::<Delete>::valid(m.delete)
        &&& Option::<Redirect>::valid(m.redirect)
    }

    open spec fn default_model() -> StorageModel {
        StorageModel {
            media: StorageMedia::default_model(),
            maintenance: Option::<Maintenance>::default_model(),
            cache: Option::<Cache>::default_model(),
            delete: Option::<Delete>::default_model(),
            redirect: Option::<Redirect>::default_model(),
        }
    }

    /// An explicit null reads as the default. In a mapping the driver is the
    /// one that the keys select, and the four parts are read each from its
    /// own key, whichever driver was selected; the first of the five, in the
    /// order below, that cannot be read decides the error.
    open spec fn decode(tree: Tree) -> Result<StorageModel, Fault> {
        match tree {
            Tree::Null => Ok(Self::default_model()),
            Tree::Dict(entries) => {
                let media = select_media(entries);
                let maintenance = decode_field::<Option<Maintenance>>(entries, "maintenance"@);
                let cache = decode_field::<Option<Cache>>(entries, "cache"@);
                let delete = decode_field::<Option<Delete>>(entries, "delete"@);
                let redirect = decode_field::<Option<Redirect>>(entries, "redirect"@);
                if media is Err {
                    Err(media->Err_0)
                } else if maintenance is Err {
                    Err(maintenance->Err_0)
                } else if cache is Err {
                    Err(cache->Err_0)
                } else if delete is Err {
                    Err(delete->Err_0)
                } else if redirect is Err {
                    Err(redirect->Err_0)
                } else {
                    Ok(
                        StorageModel {
                            media: media->Ok_0,
                            maintenance: maintenance->Ok_0,
                            cache: cache->Ok_0,
                            delete: delete->Ok_0,
                            redirect: redirect->Ok_0,
                        },
                    )
                }
            },
            _ => Err(Fault::TypeMismatch(Expected::Dict)),
        }
    }

    /// A mapping with the driver's entry and one entry for each of the four
    /// parts, a part that is left out as null, in ascending key order.
    open spec fn encode(m: StorageModel) -> Tree {
        let cache = (Tree::Text("cache"@), Option::<Cache>::encode(m.cache));
        let delete = (Tree::Text("delete"@), Option::<Delete>::encode(m.delete));
        let maintenance = (
            Tree::Text("maintenance"@),
            Option::<Maintenance>::encode(m.maintenance),
        );
        let redirect = (Tree::Text("redirect"@), Option::<Redirect>::encode(m.redirect));
        if m.media is S3 {
            Tree::Dict(seq![cache, delete, maintenance, redirect, media_entry(m.media)])
        } else {
            Tree::Dict(seq![cache, delete, media_entry(m.media), maintenance, redirect])
        }
    }

    proof fn lemma_default_valid() {
    }

    proof fn lemma_decode_valid(tree: Tree) {
        if let Tree::Dict(entries) = tree {
            lemma_select_valid(entries);
            lemma_field_valid::<Option<Maintenance>>(entries, "maintenance"@);
            lemma_field_valid::<Option<Cache>>(entries, "cache"@);
            lemma_field_valid::<Option<Delete>>(entries, "delete"@);
            lemma_field_valid::<Option<Redirect>>(entries, "redirect"@);
        }
    }

    proof fn lemma_round_trip(m: StorageModel) {
        reveal_strlit("cache");
        reveal_strlit("delete");
        reveal_strlit("filesystem");
        reveal_strlit("inmemory");
        reveal_strlit("maintenance");
        reveal_strlit("redirect");
        reveal_strlit("s3");
        assert("cache"@.len() == 5);
        assert("delete"@.len() == 6);
        assert("filesystem"@.len() == 10);
        assert("inmemory"@.len() == 8);
        assert("inmemory"@[0] == 'i');
        assert("maintenance"@.len() == 11);
        assert("redirect"@.len() == 8);
        assert("redirect"@[0] == 'r');
        assert("s3"@.len() == 2);
        let entries = Self::encode(m)->Dict_0;
        lemma_field_round_trip::<Option<Cache>>(entries, "cache"@, 0, m.cache);
        lemma_field_round_trip::<Option<Delete>>(entries, "delete"@, 1, m.delete);
        match m.media {
            StorageMediaModel::Filesystem(bag) => {
                lemma_find_at(entries, "filesystem"@, 2, 0);
                Table::<Parameter>::lemma_round_trip(bag);
                lemma_field_round_trip::<Option<Maintenance>>(
                    entries,
                    "maintenance"@,
                    3,
                    m.maintenance,
                );
                lemma_field_round_trip::<Option<Redirect>>(entries, "redirect"@, 4, m.redirect);
            },
            StorageMediaModel::S3(bag) => {
                lemma_find_none(entries, "filesystem"@, 0);
                lemma_find_at(entries, "s3"@, 4, 0);
                Table::<Parameter>::lemma_round_trip(bag);
                lemma_field_round_trip::<Option<Maintenance>>(
                    entries,
                    "maintenance"@,
                    2,
                    m.maintenance,
                );
                lemma_field_round_trip::<Option<Redirect>>(entries, "redirect"@, 3, m.redirect);
            },
            StorageMediaModel::InMemory => {
                lemma_find_none(entries, "filesystem"@, 0);
                lemma_find_none(entries, "s3"@, 0);
                lemma_find_at(entries, "inmemory"@, 2, 0);
                lemma_field_round_trip::<Option<Maintenance>>(
                    entries,
                    "maintenance"@,
                    3,
                    m.maintenance,
                );
                lemma_field_round_trip::<Option<Redirect>>(entries, "redirect"@, 4, m.redirect);
            },
        }
    }

    proof fn lemma_encode_orderly(m: StorageModel) {
        StorageMedia::lemma_encode_orderly(m.media);
        Option::<Maintenance>::lemma_encode_orderly(m.maintenance);
        Option::<Cache>::lemma_encode_orderly(m.cache);
        Option::<Delete>::lemma_encode_orderly(m.delete);
        Option::<Redirect>::lemma_encode_orderly(m.redirect);
        assert(key_before("cache"@, "delete"@)) by {
            reveal_strlit("cache");
            reveal_strlit("delete");
            lemma_ascii_before("cache"@, "delete"@, 0);
        }
        assert(key_before("delete"@, "filesystem"@)) by {
            reveal_strlit("delete");
            reveal_strlit("filesystem");
            lemma_ascii_before("delete"@, "filesystem"@, 0);
        }
        assert(key_before("delete"@, "inmemory"@)) by {
            reveal_strlit("delete");
            reveal_strlit("inmemory");
            lemma_ascii_before("delete"@, "inmemory"@, 0);
        }
        assert(key_before("delete"@, "maintenance"@)) by {
            reveal_strlit("delete");
            reveal_strlit("maintenance");
            lemma_ascii_before("delete"@, "maintenance"@, 0);
        }
        assert(key_before("filesystem"@, "maintenance"@)) by {
            reveal_strlit("filesystem");
            reveal_strlit("maintenance");
            lemma_ascii_before("filesystem"@, "maintenance"@, 0);
        }
        assert(key_before("inmemory"@, "maintenance"@)) by {
            reveal_strlit("inmemory");
            reveal_strlit("maintenance");
            lemma_ascii_before("inmemory"@, "maintenance"@, 0);
        }
        assert(key_before("maintenance"@, "redirect"@)) by {
            reveal_strlit("maintenance");
            reveal_strlit("redirect");
            lemma_ascii_before("maintenance"@, "redirect"@, 0);
        }
        assert(key_before("redirect"@, "s3"@)) by {
            reveal_strlit("redirect");
            reveal_strlit("s3");
            lemma_ascii_before("redirect"@, "s3"@, 0);
        }
        let entries = Self::encode(m)->Dict_0;
        assert(StorageMedia::encode(m.media)->Dict_0[0] == media_entry(m.media));
        lemma_ascend_by_neighbours(entries);
    }

    fn default_value() -> (r: Storage) {
        Storage {
            media: StorageMedia::default_value(),
            maintenance: None,
            cache: None,
            delete: None,
            redirect: None,
        }
    }

    fn from_node(node: &Node) -> (r: Result<Storage, ConfigError>) {
        match node {
            Node::Null => Ok(Self::default_value()),
            Node::Dict(entries) => {
                proof {
                    lemma_dict_tree(*entries);
                }
                let media = select(entries)?;
                let maintenance = read_field::<Option<Maintenance>>(entries, "maintenance")?;
                let cache = read_field::<Option<Cache>>(entries, "cache")?;
                let delete = read_field::<Option<Delete>>(entries, "delete")?;
                let redirect = read_field::<Option<Redirect>>(entries, "redirect")?;
                Ok(Storage { media, maintenance, cache, delete, redirect })
            },
            _ => Err(ConfigError::TypeMismatch(Expected::Dict)),
        }
    }

    fn to_node(&self) -> (node: Node) {
        let mut entries: Vec<(Node, Node)> = Vec::new();
        entries.push(entry("cache", self.cache.to_node()));
        entries.push(entry("delete", self.delete.to_node()));
        match &self.media {
            StorageMedia::S3(_) => {
                entries.push(entry("maintenance", self.maintenance.to_node()));
                entries.push(entry("redirect", self.redirect.to_node()));
                entries.push(self.media.to_entry());
            },
            _ => {
                entries.push(self.media.to_entry());
                entries.push(entry("maintenance", self.maintenance.to_node()));
                entries.push(entry("redirect", self.redirect.to_node()));
            },
        }
        proof {
            lemma_dict_tree(entries);
            assert(tree_pairs(entries@) =~= Self::encode(self.model())->Dict_0);
        }
        Node::Dict(entries)
    }
}

impl Lenient for Storage {
    proof fn lemma_null_is_default() {
    }
}

} // verus!
