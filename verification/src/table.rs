//! A map from string keys to values, held in ascending key order.

use crate::codec::{scalar_text, text_of_scalar, Codec, Lenient};
use crate::error::{ConfigError, Expected, Fault};
use crate::text::{
    key_before, lemma_key_before_irreflexive, lemma_key_before_total,
    lemma_key_before_transitive, rank, Rank,
};
use crate::tree::{lemma_dict_tree, orderly, tree_pairs, Node, Tree};
use vstd::prelude::*;

verus! {

/// A map from string keys to values. A valid table holds its entries in
/// strictly ascending key order, so no key occurs twice and two tables with
/// the same entries are the same table.
#[derive(Debug, PartialEq)]
pub struct Table<V> {
    /// The entries: key, then value.
    pub entries: Vec<(String, V)>,
}

/// Whether the keys ascend strictly.
pub open spec fn ascending<M>(m: Seq<(Seq<char>, M)>) -> bool {
    forall|i: int, j: int|
        0 <= i < j < m.len() ==> key_before((#[trigger] m[i]).0, (#[trigger] m[j]).0)
}

/// The entries after `key` was put in, looking from position `i` on: in
/// front of the first entry whose key sorts after it, or at the end; and
/// unchanged where an entry has the key already.
pub open spec fn insert_from<M>(m: Seq<(Seq<char>, M)>, key: Seq<char>, value: M, i: int) -> Seq<
    (Seq<char>, M),
>
    decreases m.len() - i,
{
    if i < 0 || i >= m.len() {
        m.push((key, value))
    } else if m[i].0 == key {
        m
    } else if key_before(key, m[i].0) {
        m.insert(i, (key, value))
    } else {
        insert_from(m, key, value, i + 1)
    }
}

/// The entries after `key` was put in with `value`. A key that is there
/// already keeps its value.
pub open spec fn inserted<M>(m: Seq<(Seq<char>, M)>, key: Seq<char>, value: M) -> Seq<
    (Seq<char>, M),
> {
    insert_from(m, key, value, 0)
}

/// Putting a key into ascending entries leaves them ascending.
pub proof fn lemma_insert_ascending<M>(m: Seq<(Seq<char>, M)>, key: Seq<char>, value: M, i: int)
    requires
        ascending(m),
        0 <= i <= m.len(),
        forall|j: int| 0 <= j < i ==> key_before((#[trigger] m[j]).0, key),
    ensures
        ascending(insert_from(m, key, value, i)),
    decreases m.len() - i,
{
    let r = insert_from(m, key, value, i);
    if i >= m.len() {
        assert forall|a: int, b: int| 0 <= a < b < r.len() implies key_before(
            (#[trigger] r[a]).0,
            (#[trigger] r[b]).0,
        ) by {
            if b < m.len() {
                assert(r[a] == m[a] && r[b] == m[b]);
            } else {
                assert(r[a] == m[a]);
            }
        }
    } else if m[i].0 == key {
    } else if key_before(key, m[i].0) {
        assert forall|a: int, b: int| 0 <= a < b < r.len() implies key_before(
            (#[trigger] r[a]).0,
            (#[trigger] r[b]).0,
        ) by {
            if b < i {
                assert(r[a] == m[a] && r[b] == m[b]);
            } else if b == i {
                assert(r[a] == m[a]);
            } else if a < i {
                assert(r[a] == m[a] && r[b] == m[b - 1]);
            } else if a == i {
                assert(r[b] == m[b - 1]);
                if b - 1 > i {
                    assert(key_before(m[i].0, m[b - 1].0));
                    lemma_key_before_transitive(key, m[i].0, m[b - 1].0);
                }
            } else {
                assert(r[a] == m[a - 1] && r[b] == m[b - 1]);
            }
        }
    } else {
        if !key_before(m[i].0, key) {
            lemma_key_before_total(m[i].0, key);
        }
        lemma_insert_ascending(m, key, value, i + 1);
    }
}

/// A key that sorts after every key there is goes to the end.
pub proof fn lemma_insert_last<M>(m: Seq<(Seq<char>, M)>, key: Seq<char>, value: M, i: int)
    requires
        0 <= i <= m.len(),
        forall|j: int| 0 <= j < m.len() ==> key_before((#[trigger] m[j]).0, key),
    ensures
        insert_from(m, key, value, i) == m.push((key, value)),
    decreases m.len() - i,
{
    if i < m.len() {
        assert(key_before(m[i].0, key));
        lemma_key_before_irreflexive(key);
        if key_before(key, m[i].0) {
            lemma_key_before_transitive(key, m[i].0, key);
        }
        lemma_insert_last(m, key, value, i + 1);
    }
}

/// Putting a valid value into entries whose values are valid leaves them so.
pub proof fn lemma_insert_valid<V: Codec>(
    m: Seq<(Seq<char>, V::Model)>,
    key: Seq<char>,
    value: V::Model,
    i: int,
)
    requires
        0 <= i <= m.len(),
        values_valid::<V>(m),
        V::valid(value),
    ensures
        values_valid::<V>(insert_from(m, key, value, i)),
    decreases m.len() - i,
{
    let r = insert_from(m, key, value, i);
    if i >= m.len() {
        assert forall|a: int| 0 <= a < r.len() implies V::valid((#[trigger] r[a]).1) by {
            if a < m.len() {
                assert(r[a] == m[a]);
            }
        }
    } else if m[i].0 == key {
    } else if key_before(key, m[i].0) {
        assert forall|a: int| 0 <= a < r.len() implies V::valid((#[trigger] r[a]).1) by {
            if a < i {
                assert(r[a] == m[a]);
            } else if a > i {
                assert(r[a] == m[a - 1]);
            }
        }
    } else {
        lemma_insert_valid::<V>(m, key, value, i + 1);
    }
}

/// What the entries of a mapping are read as, from position `i` on, after
/// `done` was read from those before. Each key is read as a string, each
/// value as a `V`; of two entries with one key the first counts. The first
/// entry that cannot be read decides the error.
pub open spec fn decode_entries<V: Codec>(
    entries: Seq<(Tree, Tree)>,
    i: int,
    done: Seq<(Seq<char>, V::Model)>,
) -> Result<Seq<(Seq<char>, V::Model)>, Fault>
    decreases entries.len() - i,
{
    if i < 0 || i >= entries.len() {
        Ok(done)
    } else {
        match scalar_text(entries[i].0) {
            None => Err(Fault::TypeMismatch(Expected::Key)),
            Some(key) => match V::decode(entries[i].1) {
                Err(e) => Err(e),
                Ok(value) => decode_entries::<V>(entries, i + 1, inserted(done, key, value)),
            },
        }
    }
}

/// The entries that a table's model is written as, in order.
pub open spec fn encode_entries<V: Codec>(m: Seq<(Seq<char>, V::Model)>) -> Seq<(Tree, Tree)> {
    Seq::new(m.len(), |i: int| (Tree::Text(m[i].0), V::encode(m[i].1)))
}

/// The models of a table's entries, in order.
pub open spec fn entry_models<V: Codec>(entries: Seq<(String, V)>) -> Seq<(Seq<char>, V::Model)> {
    Seq::new(entries.len(), |i: int| (entries[i].0@, entries[i].1.model()))
}

/// Whether every value is valid.
pub open spec fn values_valid<V: Codec>(m: Seq<(Seq<char>, V::Model)>) -> bool {
    forall|i: int| 0 <= i < m.len() ==> V::valid((#[trigger] m[i]).1)
}

/// Whatever is read from a mapping is a valid table.
pub proof fn lemma_entries_valid<V: Codec>(
    entries: Seq<(Tree, Tree)>,
    i: int,
    done: Seq<(Seq<char>, V::Model)>,
)
    requires
        0 <= i,
        ascending(done),
        values_valid::<V>(done),
    ensures
        decode_entries::<V>(entries, i, done) matches Ok(m) ==> ascending(m) && values_valid::<V>(
            m,
        ),
    decreases entries.len() - i,
{
    if i < entries.len() {
        if let Some(key) = scalar_text(entries[i].0) {
            V::lemma_decode_valid(entries[i].1);
            if let Ok(value) = V::decode(entries[i].1) {
                let next = inserted(done, key, value);
                lemma_insert_ascending(done, key, value, 0);
                lemma_insert_valid::<V>(done, key, value, 0);
                lemma_entries_valid::<V>(entries, i + 1, next);
            }
        }
    }
}

/// Reading back what was written for a valid table gives the table.
pub proof fn lemma_entries_round_trip<V: Codec>(m: Seq<(Seq<char>, V::Model)>, i: int)
    requires
        0 <= i <= m.len(),
        ascending(m),
        values_valid::<V>(m),
    ensures
        decode_entries::<V>(encode_entries::<V>(m), i, m.take(i)) == Ok::<
            Seq<(Seq<char>, V::Model)>,
            Fault,
        >(m),
    decreases m.len() - i,
{
    if i < m.len() {
        let done = m.take(i);
        V::lemma_round_trip(m[i].1);
        assert forall|j: int| 0 <= j < done.len() implies key_before(
            (#[trigger] done[j]).0,
            m[i].0,
        ) by {
            assert(done[j] == m[j]);
        }
        lemma_insert_last(done, m[i].0, m[i].1, 0);
        assert(done.push(m[i]) == m.take(i + 1));
        lemma_entries_round_trip::<V>(m, i + 1);
    } else {
        assert(m.take(i) == m);
    }
}

/// Whether some entry has the key.
pub open spec fn has_key<M>(m: Seq<(Seq<char>, M)>, key: Seq<char>) -> bool {
    exists|i: int| 0 <= i < m.len() && (#[trigger] m[i]).0 == key
}

/// After a key was put in, some entry has it.
pub proof fn lemma_insert_has_key<M>(m: Seq<(Seq<char>, M)>, key: Seq<char>, value: M, i: int)
    requires
        0 <= i <= m.len(),
    ensures
        has_key(insert_from(m, key, value, i), key),
    decreases m.len() - i,
{
    let r = insert_from(m, key, value, i);
    if i >= m.len() {
        assert(r[m.len() as int].0 == key);
    } else if m[i].0 == key {
        assert(r[i].0 == key);
    } else if key_before(key, m[i].0) {
        assert(r[i].0 == key);
    } else {
        lemma_insert_has_key(m, key, value, i + 1);
    }
}

/// Putting a key in removes no other key.
pub proof fn lemma_insert_keeps_keys<M>(
    m: Seq<(Seq<char>, M)>,
    key: Seq<char>,
    value: M,
    i: int,
    other: Seq<char>,
)
    requires
        0 <= i <= m.len(),
        has_key(m, other),
    ensures
        has_key(insert_from(m, key, value, i), other),
    decreases m.len() - i,
{
    let r = insert_from(m, key, value, i);
    let j = choose|j: int| 0 <= j < m.len() && (#[trigger] m[j]).0 == other;
    if i >= m.len() {
        assert(r[j].0 == other);
    } else if m[i].0 == key {
    } else if key_before(key, m[i].0) {
        if j < i {
            assert(r[j].0 == other);
        } else {
            assert(r[j + 1].0 == other);
        }
    } else {
        lemma_insert_keeps_keys(m, key, value, i + 1, other);
    }
}

/// A key that was read stays while the rest of the mapping is read.
pub proof fn lemma_entries_keep_keys<V: Codec>(
    entries: Seq<(Tree, Tree)>,
    i: int,
    done: Seq<(Seq<char>, V::Model)>,
    key: Seq<char>,
)
    requires
        0 <= i,
        has_key(done, key),
        decode_entries::<V>(entries, i, done) is Ok,
    ensures
        has_key(decode_entries::<V>(entries, i, done)->Ok_0, key),
    decreases entries.len() - i,
{
    if i < entries.len() {
        let k = scalar_text(entries[i].0)->Some_0;
        let v = V::decode(entries[i].1)->Ok_0;
        lemma_insert_keeps_keys(done, k, v, 0, key);
        lemma_entries_keep_keys::<V>(entries, i + 1, inserted(done, k, v), key);
    }
}

/// Where a mapping can be read at all, the key of every entry from position
/// `i` on is read as a string and is a key of what was read.
pub proof fn lemma_entries_take_every_key<V: Codec>(
    entries: Seq<(Tree, Tree)>,
    i: int,
    done: Seq<(Seq<char>, V::Model)>,
    j: int,
)
    requires
        0 <= i <= j < entries.len(),
        decode_entries::<V>(entries, i, done) is Ok,
    ensures
        scalar_text(entries[j].0) is Some,
        has_key(decode_entries::<V>(entries, i, done)->Ok_0, scalar_text(entries[j].0)->Some_0),
    decreases j - i,
{
    let k = scalar_text(entries[i].0)->Some_0;
    let v = V::decode(entries[i].1)->Ok_0;
    if i == j {
        lemma_insert_has_key(done, k, v, 0);
        lemma_entries_keep_keys::<V>(entries, i + 1, inserted(done, k, v), k);
    } else {
        lemma_entries_take_every_key::<V>(entries, i + 1, inserted(done, k, v), j);
    }
}

/// Whether some entry is the given key with the given value.
pub open spec fn has_entry<M>(m: Seq<(Seq<char>, M)>, key: Seq<char>, value: M) -> bool {
    exists|i: int| 0 <= i < m.len() && #[trigger] m[i] == (key, value)
}

/// Putting a key in changes no entry that is there.
pub proof fn lemma_insert_keeps_entries<M>(
    m: Seq<(Seq<char>, M)>,
    key: Seq<char>,
    value: M,
    i: int,
    other: Seq<char>,
    held: M,
)
    requires
        0 <= i <= m.len(),
        has_entry(m, other, held),
    ensures
        has_entry(insert_from(m, key, value, i), other, held),
    decreases m.len() - i,
{
    let r = insert_from(m, key, value, i);
    let j = choose|j: int| 0 <= j < m.len() && #[trigger] m[j] == (other, held);
    if i >= m.len() {
        assert(r[j] == (other, held));
    } else if m[i].0 == key {
    } else if key_before(key, m[i].0) {
        if j < i {
            assert(r[j] == (other, held));
        } else {
            assert(r[j + 1] == (other, held));
        }
    } else {
        lemma_insert_keeps_entries(m, key, value, i + 1, other, held);
    }
}

/// A key that no entry from position `i` on has goes in with its value.
pub proof fn lemma_insert_new_entry<M>(m: Seq<(Seq<char>, M)>, key: Seq<char>, value: M, i: int)
    requires
        0 <= i <= m.len(),
        forall|j: int| i <= j < m.len() ==> (#[trigger] m[j]).0 != key,
    ensures
        has_entry(insert_from(m, key, value, i), key, value),
    decreases m.len() - i,
{
    let r = insert_from(m, key, value, i);
    if i >= m.len() {
        assert(r[m.len() as int] == (key, value));
    } else if key_before(key, m[i].0) {
        assert(m[i].0 != key);
        assert(r[i] == (key, value));
    } else {
        assert(m[i].0 != key);
        lemma_insert_new_entry(m, key, value, i + 1);
    }
}

/// Putting a key in adds no other key.
pub proof fn lemma_insert_adds_one_key<M>(
    m: Seq<(Seq<char>, M)>,
    key: Seq<char>,
    value: M,
    i: int,
    other: Seq<char>,
)
    requires
        0 <= i <= m.len(),
        has_key(insert_from(m, key, value, i), other),
    ensures
        other == key || has_key(m, other),
    decreases m.len() - i,
{
    let r = insert_from(m, key, value, i);
    let j = choose|j: int| 0 <= j < r.len() && (#[trigger] r[j]).0 == other;
    if i >= m.len() {
        if j < m.len() {
            assert(m[j].0 == other);
        }
    } else if m[i].0 == key {
    } else if key_before(key, m[i].0) {
        if j < i {
            assert(m[j].0 == other);
        } else if j > i {
            assert(m[j - 1].0 == other);
        }
    } else {
        lemma_insert_adds_one_key(m, key, value, i + 1, other);
    }
}

/// An entry that was read stays while the rest of the mapping is read.
pub proof fn lemma_entries_keep_entries<V: Codec>(
    entries: Seq<(Tree, Tree)>,
    i: int,
    done: Seq<(Seq<char>, V::Model)>,
    key: Seq<char>,
    value: V::Model,
)
    requires
        0 <= i,
        has_entry(done, key, value),
        decode_entries::<V>(entries, i, done) is Ok,
    ensures
        has_entry(decode_entries::<V>(entries, i, done)->Ok_0, key, value),
    decreases entries.len() - i,
{
    if i < entries.len() {
        let k = scalar_text(entries[i].0)->Some_0;
        let v = V::decode(entries[i].1)->Ok_0;
        lemma_insert_keeps_entries(done, k, v, 0, key, value);
        lemma_entries_keep_entries::<V>(entries, i + 1, inserted(done, k, v), key, value);
    }
}

/// Where a mapping can be read at all, the first entry under a key goes in
/// with what its value is read as.
pub proof fn lemma_entries_take_first_value<V: Codec>(
    entries: Seq<(Tree, Tree)>,
    i: int,
    done: Seq<(Seq<char>, V::Model)>,
    j: int,
)
    requires
        0 <= i <= j < entries.len(),
        decode_entries::<V>(entries, i, done) is Ok,
        forall|a: int| i <= a < j ==> scalar_text(#[trigger] entries[a].0) != scalar_text(
            entries[j].0,
        ),
        scalar_text(entries[j].0) is Some ==> !has_key(done, scalar_text(entries[j].0)->Some_0),
    ensures
        has_entry(
            decode_entries::<V>(entries, i, done)->Ok_0,
            scalar_text(entries[j].0)->Some_0,
            V::decode(entries[j].1)->Ok_0,
        ),
    decreases j - i,
{
    let k = scalar_text(entries[i].0)->Some_0;
    let v = V::decode(entries[i].1)->Ok_0;
    let next = inserted(done, k, v);
    if i == j {
        assert forall|a: int| 0 <= a < done.len() implies (#[trigger] done[a]).0 != k by {
            if done[a].0 == k {
                assert(has_key(done, k));
            }
        }
        lemma_insert_new_entry(done, k, v, 0);
        lemma_entries_keep_entries::<V>(entries, i + 1, next, k, v);
    } else {
        lemma_entries_take_every_key::<V>(entries, i, done, j);
        let wanted = scalar_text(entries[j].0)->Some_0;
        assert(scalar_text(entries[i].0) != scalar_text(entries[j].0));
        if has_key(next, wanted) {
            lemma_insert_adds_one_key(done, k, v, 0, wanted);
        }
        lemma_entries_take_first_value::<V>(entries, i + 1, next, j);
    }
}

/// A table takes every key of the mapping it is read from, known or not:
/// where the mapping can be read at all, none of its keys is dropped.
pub proof fn lemma_table_takes_every_key<V: Codec>(entries: Seq<(Tree, Tree)>, j: int)
    requires
        0 <= j < entries.len(),
        Table::<V>::decode(Tree::Dict(entries)) is Ok,
    ensures
        scalar_text(entries[j].0) is Some,
        has_key(
            Table::<V>::decode(Tree::Dict(entries))->Ok_0,
            scalar_text(entries[j].0)->Some_0,
        ),
{
    lemma_entries_take_every_key::<V>(entries, 0, Seq::empty(), j);
}

/// A table holds, under every key of the mapping it is read from, what the
/// first value under that key is read as.
pub proof fn lemma_table_takes_first_value<V: Codec>(entries: Seq<(Tree, Tree)>, j: int)
    requires
        0 <= j < entries.len(),
        Table::<V>::decode(Tree::Dict(entries)) is Ok,
        forall|a: int| 0 <= a < j ==> scalar_text(#[trigger] entries[a].0) != scalar_text(
            entries[j].0,
        ),
    ensures
        has_entry(
            Table::<V>::decode(Tree::Dict(entries))->Ok_0,
            scalar_text(entries[j].0)->Some_0,
            V::decode(entries[j].1)->Ok_0,
        ),
{
    let none = Seq::<(Seq<char>, V::Model)>::empty();
    if scalar_text(entries[j].0) is Some {
        assert(!has_key(none, scalar_text(entries[j].0)->Some_0));
    }
    lemma_entries_take_first_value::<V>(entries, 0, none, j);
}

impl<V: Codec> Table<V> {
    /// A table without entries.
    pub fn new() -> (r: Self)
        ensures
            r.model() == Seq::<(Seq<char>, V::Model)>::empty(),
    {
        let r = Table { entries: Vec::new() };
        assert(r.model() =~= Seq::<(Seq<char>, V::Model)>::empty());
        r
    }

    /// Puts `key` in with `value`, at its place in the key order. A key that
    /// is there already keeps its value.
    pub fn insert(&mut self, key: String, value: V)
        ensures
            final(self).model() == inserted(old(self).model(), key@, value.model()),
    {
        let ghost m = self.model();
        let mut i: usize = 0;
        while i < self.entries.len()
            invariant
                i <= self.entries.len(),
                *self == *old(self),
                m == self.model(),
                inserted(m, key@, value.model()) == insert_from(m, key@, value.model(), i as int),
            decreases self.entries.len() - i,
        {
            match rank(key.as_str(), self.entries[i].0.as_str()) {
                Rank::Same => {
                    return ;
                },
                Rank::Before => {
                    self.entries.insert(i, (key, value));
                    assert(self.model() =~= m.insert(i as int, (key@, value.model())));
                    return ;
                },
                Rank::After => {},
            }
            i += 1;
        }
        self.entries.push((key, value));
        assert(self.model() =~= m.push((key@, value.model())));
    }
}

impl<V: Codec> Codec for Table<V> {
    type Model = Seq<(Seq<char>, V::Model)>;

    open spec fn model(&self) -> Seq<(Seq<char>, V::Model)> {
        entry_models::<V>(self.entries@)
    }

    open spec fn valid(m: Seq<(Seq<char>, V::Model)>) -> bool {
        ascending(m) && values_valid::<V>(m)
    }

    open spec fn default_model() -> Seq<(Seq<char>, V::Model)> {
        Seq::empty()
    }

    open spec fn decode(tree: Tree) -> Result<Seq<(Seq<char>, V::Model)>, Fault> {
        match tree {
            Tree::Null => Ok(Seq::empty()),
            Tree::Dict(entries) => decode_entries::<V>(entries, 0, Seq::empty()),
            _ => Err(Fault::TypeMismatch(Expected::Dict)),
        }
    }

    open spec fn encode(m: Seq<(Seq<char>, V::Model)>) -> Tree {
        Tree::Dict(encode_entries::<V>(m))
    }

    proof fn lemma_default_valid() {
    }

    proof fn lemma_decode_valid(tree: Tree) {
        if let Tree::Dict(entries) = tree {
            lemma_entries_valid::<V>(entries, 0, Seq::empty());
        }
    }

    proof fn lemma_round_trip(m: Seq<(Seq<char>, V::Model)>) {
        assert(m.take(0) == Seq::<(Seq<char>, V::Model)>::empty());
        lemma_entries_round_trip::<V>(m, 0);
    }

    proof fn lemma_encode_orderly(m: Seq<(Seq<char>, V::Model)>) {
        let entries = encode_entries::<V>(m);
        assert forall|i: int| 0 <= i < entries.len() implies orderly(
            (#[trigger] entries[i]).1,
        ) by {
            V::lemma_encode_orderly(m[i].1);
        }
        assert forall|i: int, j: int| 0 <= i < j < entries.len() implies key_before(
            (#[trigger] entries[i]).0->Text_0,
            (#[trigger] entries[j]).0->Text_0,
        ) by {
            assert(key_before(m[i].0, m[j].0));
        }
    }

    fn default_value() -> (r: Table<V>) {
        Table::new()
    }

    fn from_node(node: &Node) -> (r: Result<Table<V>, ConfigError>) {
        match node {
            Node::Null => Ok(Table::new()),
            Node::Dict(entries) => {
                let mut table: Table<V> = Table::new();
                let mut i: usize = 0;
                proof {
                    lemma_dict_tree(*entries);
                }
                while i < entries.len()
                    invariant
                        i <= entries.len(),
                        node@ == Tree::Dict(tree_pairs(entries@)),
                        decode_entries::<V>(tree_pairs(entries@), 0, Seq::empty())
                            == decode_entries::<V>(
                            tree_pairs(entries@),
                            i as int,
                            table.model(),
                        ),
                    decreases entries.len() - i,
                {
                    let key = match text_of_scalar(&entries[i].0) {
                        Some(key) => key,
                        None => {
                            return Err(ConfigError::TypeMismatch(Expected::Key));
                        },
                    };
                    let value = V::from_node(&entries[i].1)?;
                    table.insert(key, value);
                    i += 1;
                }
                Ok(table)
            },
            _ => Err(ConfigError::TypeMismatch(Expected::Dict)),
        }
    }

    fn to_node(&self) -> (node: Node) {
        let mut nodes: Vec<(Node, Node)> = Vec::new();
        let mut i: usize = 0;
        while i < self.entries.len()
            invariant
                i <= self.entries.len(),
                nodes.len() == i,
                forall|j: int|
                    0 <= j < i ==> (#[trigger] nodes[j]).0@ == Tree::Text(self.entries[j].0@)
                        && nodes[j].1@ == V::encode(self.entries[j].1.model()),
            decreases self.entries.len() - i,
        {
            let key = Node::Text(self.entries[i].0.clone());
            let value = self.entries[i].1.to_node();
            nodes.push((key, value));
            i += 1;
        }
        proof {
            lemma_dict_tree(nodes);
            assert(tree_pairs(nodes@) =~= encode_entries::<V>(self.model()));
        }
        Node::Dict(nodes)
    }
}

impl<V: Codec> Lenient for Table<V> {
    proof fn lemma_null_is_default() {
    }
}

} // verus!
