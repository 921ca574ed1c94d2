//! Stores of versioned key-value pairs.
use std::collections::BTreeMap;

use vstd::prelude::*;

use crate::byte_order::{
    before, before_irreflexive, before_total, before_transitive, compare, KeyOrder,
};
use crate::value_encoding::ValueEncodingError;

verus! {

/// A point in the history of a store. Larger epochs are newer.
pub type HummockEpoch = u64;

/// The table that a pair belongs to.
pub type StorageTableId = u64;

/// The table of pairs that belong to no particular table.
pub const GLOBAL_STORAGE_TABLE_ID: u64 = 0x2333abcd;

/// Why a table refused a row.
#[derive(Clone, Copy, Debug, PartialEq, Eq, Structural)]
pub enum StateTableError {
    /// A row with this primary key was inserted before, and not deleted.
    DoubleInsert,
    /// The row with this primary key was deleted before, and not inserted again.
    DoubleDelete,
}

/// Why the storage failed.
#[derive(Clone, Copy, Debug, PartialEq, Eq, Structural)]
pub enum StorageError {
    /// The store failed, with a number of its own.
    Store(u32),
    /// A stored row cannot be read.
    CellBasedTable(ValueEncodingError),
    /// A table refused a row.
    StateTable(StateTableError),
}

pub type StorageResult<T> = Result<T, StorageError>;

/// How a value came into a store.
#[derive(Clone, Copy, Debug, PartialEq, Eq, Structural)]
pub enum Origin {
    /// It was written to a table, and is to be persisted.
    Ingested(StorageTableId),
    /// It was replicated, and is not to be persisted.
    Replicated,
}

/// What was written under a key. A deletion is no value.
pub struct Version {
    pub value: Option<Seq<u8>>,
    /// A number that is kept beside the value, and not read back with it.
    pub value_meta: u16,
    pub origin: Origin,
}

/// What was written under a key, by epoch.
pub type Versions = Map<u64, Version>;

/// `e` is the newest epoch, up to `epoch`, in which there is a version.
pub open spec fn is_latest(v: Versions, epoch: u64, e: u64) -> bool {
    &&& v.dom().contains(e)
    &&& e <= epoch
    &&& forall|f: u64| #[trigger] v.dom().contains(f) && f <= epoch ==> f <= e
}

/// The value as of `epoch`: the newest version up to that epoch, if it is not a deletion.
pub open spec fn newest(v: Versions, epoch: u64) -> Option<Seq<u8>> {
    if exists|e: u64| is_latest(v, epoch, e) {
        v[choose|e: u64| is_latest(v, epoch, e)].value
    } else {
        None
    }
}

/// There is only one newest version.
pub proof fn lemma_newest(v: Versions, epoch: u64, e: u64)
    requires
        is_latest(v, epoch, e),
    ensures
        newest(v, epoch) == v[e].value,
{
    let f = choose|f: u64| is_latest(v, epoch, f);
    assert(is_latest(v, epoch, f));
    assert(v.dom().contains(e) && v.dom().contains(f));
    assert(e == f);
}

/// What is written in an epoch is what is read in it.
pub proof fn written_is_newest(v: Versions, epoch: u64, version: Version)
    ensures
        newest(v.insert(epoch, version), epoch) == version.value,
{
    assert(is_latest(v.insert(epoch, version), epoch, epoch));
    lemma_newest(v.insert(epoch, version), epoch, epoch);
}

/// What is written in an epoch is read in newer epochs too, up to the next write.
pub proof fn newer_epochs_see(v: Versions, epoch: u64, version: Version, newer: u64)
    requires
        epoch <= newer,
        forall|e: u64| #[trigger] v.dom().contains(e) ==> e <= epoch || e > newer,
    ensures
        newest(v.insert(epoch, version), newer) == version.value,
{
    let w = v.insert(epoch, version);
    assert(is_latest(w, newer, epoch)) by {
        assert forall|f: u64| #[trigger] w.dom().contains(f) && f <= newer implies f <= epoch by {
            if f != epoch {
                assert(v.dom().contains(f));
            }
        }
    }
    lemma_newest(w, newer, epoch);
}

/// Without a write up to an epoch, nothing is read in it.
pub proof fn nothing_is_read_before_a_write(v: Versions, epoch: u64)
    requires
        forall|e: u64| #[trigger] v.dom().contains(e) ==> e > epoch,
    ensures
        newest(v, epoch) is None,
{
}

/// What is written in an epoch is not read in older epochs.
pub proof fn older_epochs_do_not_see(v: Versions, epoch: u64, version: Version, older: u64)
    requires
        older < epoch,
    ensures
        newest(v.insert(epoch, version), older) == newest(v, older),
{
    let w = v.insert(epoch, version);
    if exists|e: u64| is_latest(v, older, e) {
        let e = choose|e: u64| is_latest(v, older, e);
        assert(is_latest(v, older, e));
        assert(is_latest(w, older, e)) by {
            assert forall|f: u64| #[trigger] w.dom().contains(f) && f <= older implies f <= e by {
                assert(v.dom().contains(f));
            }
        }
        lemma_newest(v, older, e);
        lemma_newest(w, older, e);
    } else if exists|e: u64| is_latest(w, older, e) {
        let e = choose|e: u64| is_latest(w, older, e);
        assert(is_latest(w, older, e));
        assert(is_latest(v, older, e)) by {
            assert forall|f: u64| #[trigger] v.dom().contains(f) && f <= older implies f <= e by {
                assert(w.dom().contains(f));
            }
        }
    }
}

/// An end of a range of keys.
#[derive(Debug)]
pub enum KeyBound {
    Included(Vec<u8>),
    Excluded(Vec<u8>),
    Unbounded,
}

/// A range of keys.
#[derive(Debug)]
pub struct KeyRange {
    pub start: KeyBound,
    pub end: KeyBound,
}

impl KeyRange {
    pub open spec fn contains_key(&self, key: Seq<u8>) -> bool {
        &&& match self.start {
            KeyBound::Included(s) => s@ == key || before(s@, key),
            KeyBound::Excluded(s) => before(s@, key),
            KeyBound::Unbounded => true,
        }
        &&& match self.end {
            KeyBound::Included(e) => key == e@ || before(key, e@),
            KeyBound::Excluded(e) => before(key, e@),
            KeyBound::Unbounded => true,
        }
    }

    /// Whether a key is in the range.
    pub fn contains(&self, key: &[u8]) -> (r: bool)
        ensures
            r == self.contains_key(key@),
    {
        let after_start = match &self.start {
            KeyBound::Included(s) => {
                proof {
                    before_irreflexive(key@);
                }
                match compare(s.as_slice(), key) {
                    KeyOrder::Greater => false,
                    _ => true,
                }
            },
            KeyBound::Excluded(s) => {
                proof {
                    before_irreflexive(key@);
                }
                match compare(s.as_slice(), key) {
                    KeyOrder::Less => true,
                    _ => false,
                }
            },
            KeyBound::Unbounded => true,
        };
        let before_end = match &self.end {
            KeyBound::Included(e) => match compare(key, e.as_slice()) {
                KeyOrder::Greater => false,
                _ => true,
            },
            KeyBound::Excluded(e) => {
                proof {
                    before_irreflexive(key@);
                }
                match compare(key, e.as_slice()) {
                    KeyOrder::Less => true,
                    _ => false,
                }
            },
            KeyBound::Unbounded => true,
        };
        after_start && before_end
    }
}

/// A value to store, or a deletion.
#[derive(Debug)]
pub struct StorageValue {
    /// A number that is stored beside the value, and not read back with it.
    pub value_meta: u16,
    pub user_value: Option<Vec<u8>>,
}

impl StorageValue {
    /// The value that is read back.
    pub open spec fn value(&self) -> Option<Seq<u8>> {
        match self.user_value {
            Some(v) => Some(v@),
            None => None,
        }
    }

    /// What writing it comes to.
    pub open spec fn version(&self, origin: Origin) -> Version {
        Version { value: self.value(), value_meta: self.value_meta, origin }
    }

    pub fn new_put(value_meta: u16, user_value: Vec<u8>) -> (r: Self)
        ensures
            r.value_meta == value_meta,
            r.value() == Some(user_value@),
    {
        StorageValue { value_meta, user_value: Some(user_value) }
    }

    pub fn new_default_put(user_value: Vec<u8>) -> (r: Self)
        ensures
            r.value_meta == 0,
            r.value() == Some(user_value@),
    {
        StorageValue { value_meta: 0, user_value: Some(user_value) }
    }

    pub fn new_delete(value_meta: u16) -> (r: Self)
        ensures
            r.value_meta == value_meta,
            r.value() == None::<Seq<u8>>,
    {
        StorageValue { value_meta, user_value: None }
    }

    pub fn new_default_delete() -> (r: Self)
        ensures
            r.value_meta == 0,
            r.value() == None::<Seq<u8>>,
    {
        StorageValue { value_meta: 0, user_value: None }
    }
}

/// A batch of writes.
pub type KvPairs = Vec<(Vec<u8>, StorageValue)>;

/// What a batch writes under each of its keys.
pub open spec fn written(pairs: Seq<(Vec<u8>, StorageValue)>, origin: Origin) -> Map<
    Seq<u8>,
    Version,
>
    decreases pairs.len(),
{
    if pairs.len() == 0 {
        Map::empty()
    } else {
        written(pairs.drop_last(), origin).insert(
            pairs.last().0@,
            pairs.last().1.version(origin),
        )
    }
}

/// No key is written twice.
pub open spec fn distinct_keys(pairs: Seq<(Vec<u8>, StorageValue)>) -> bool {
    forall|i: int, j: int|
        #![trigger pairs[i], pairs[j]]
        0 <= i < j < pairs.len() ==> pairs[i].0@ != pairs[j].0@
}

/// The versions of a key after a batch was written.
pub open spec fn versions_after(
    v: Versions,
    writes: Map<Seq<u8>, Version>,
    key: Seq<u8>,
    epoch: u64,
) -> Versions {
    if writes.dom().contains(key) {
        v.insert(epoch, writes[key])
    } else {
        v
    }
}

/// A pair that was read.
pub type Item = (Vec<u8>, Vec<u8>);

/// What a pair stands for.
pub open spec fn item_view(item: Item) -> (Seq<u8>, Seq<u8>) {
    (item.0@, item.1@)
}

/// What pairs stand for.
pub open spec fn items_view(items: Seq<Item>) -> Seq<(Seq<u8>, Seq<u8>)> {
    items.map_values(|item: Item| item_view(item))
}

/// The direction of a scan.
#[derive(Clone, Copy, Debug, PartialEq, Eq, Structural)]
pub enum ScanDirection {
    Forward,
    Backward,
}

/// `a` is met before `b`.
pub open spec fn met_before(a: Seq<u8>, b: Seq<u8>, direction: ScanDirection) -> bool {
    match direction {
        ScanDirection::Forward => before(a, b),
        ScanDirection::Backward => before(b, a),
    }
}

/// One of the items has the key.
pub open spec fn has_item(items: Seq<(Seq<u8>, Seq<u8>)>, key: Seq<u8>) -> bool {
    exists|i: int| 0 <= i < items.len() && (#[trigger] items[i]).0 == key
}

/// `items` are the pairs in the range, in order, up to the limit: they are pairs that can be
/// read, and what is left out is met after them, and left out because of the limit.
pub open spec fn is_scan<S: StoreHistory>(
    store: S,
    range: KeyRange,
    limit: Option<usize>,
    epoch: u64,
    direction: ScanDirection,
    items: Seq<(Seq<u8>, Seq<u8>)>,
) -> bool {
    &&& forall|i: int, j: int|
        #![trigger items[i], items[j]]
        0 <= i < j < items.len() ==> met_before(items[i].0, items[j].0, direction)
    &&& forall|i: int|
        #![trigger items[i]]
        0 <= i < items.len() ==> range.contains_key(items[i].0) && visible(store, items[i].0, epoch)
            == Some(items[i].1)
    &&& limit matches Some(n) ==> items.len() <= n
    &&& forall|key: Seq<u8>|
        #![trigger visible(store, key, epoch)]
        range.contains_key(key) && visible(store, key, epoch) is Some && !has_item(items, key)
            ==> {
            &&& limit matches Some(n) && n == items.len()
            &&& forall|i: int|
                #![trigger items[i]]
                0 <= i < items.len() ==> met_before(items[i].0, key, direction)
        }
}

/// What a key reads as in an epoch.
pub open spec fn visible<S: StoreHistory>(store: S, key: Seq<u8>, epoch: u64) -> Option<Seq<u8>> {
    newest(store.versions(key), epoch)
}

/// What was written.
pub trait StoreHistory: Sized {
    /// The values that a key has had.
    spec fn versions(&self, key: Seq<u8>) -> Versions;
}

/// A store of versioned key-value pairs.
pub trait StateStore: StoreHistory {
    type Iter: StateStoreIter<Item = Item>;

    spec fn wf(&self) -> bool;

    /// The errors that a read of one key may end in.
    spec fn get_fails_with(e: StorageError) -> bool;

    /// The errors that a scan may end in.
    spec fn scan_fails_with(e: StorageError) -> bool;

    /// The errors that a write of a batch may end in.
    spec fn write_fails_with(e: StorageError) -> bool;

    /// The errors that opening an iterator may end in.
    spec fn open_fails_with(e: StorageError) -> bool;

    /// The errors that waiting for epochs may end in.
    spec fn wait_fails_with(e: StorageError) -> bool;

    /// The errors that persisting may end in.
    spec fn sync_fails_with(e: StorageError) -> bool;

    /// Gets the value of a key, as of the epoch.
    fn get(&self, key: &[u8], epoch: HummockEpoch) -> (r: StorageResult<Option<Vec<u8>>>)
        requires
            self.wf(),
        ensures
            r matches Err(e) ==> Self::get_fails_with(e),
            r matches Ok(v) ==> visible(*self, key@, epoch) == match v {
                Some(b) => Some(b@),
                None => None,
            },
    ;

    /// Scans `limit` pairs of a range, as of the epoch. Without a limit, scans all.
    fn scan(&self, key_range: &KeyRange, limit: Option<usize>, epoch: HummockEpoch) -> (r:
        StorageResult<Vec<Item>>)
        requires
            self.wf(),
        ensures
            r matches Err(e) ==> Self::scan_fails_with(e),
            r matches Ok(items) ==> is_scan(
                *self,
                *key_range,
                limit,
                epoch,
                ScanDirection::Forward,
                items_view(items@),
            ),
    ;

    /// Scans from the end of the range.
    fn reverse_scan(&self, key_range: &KeyRange, limit: Option<usize>, epoch: HummockEpoch) -> (r:
        StorageResult<Vec<Item>>)
        requires
            self.wf(),
        ensures
            r matches Err(e) ==> Self::scan_fails_with(e),
            r matches Ok(items) ==> is_scan(
                *self,
                *key_range,
                limit,
                epoch,
                ScanDirection::Backward,
                items_view(items@),
            ),
    ;

    /// Writes a batch. One batch never writes a key twice. All of the batch is written, or
    /// nothing.
    fn ingest_batch(
        &mut self,
        kv_pairs: KvPairs,
        epoch: HummockEpoch,
        table_id: StorageTableId,
    ) -> (r: StorageResult<()>)
        requires
            old(self).wf(),
            distinct_keys(kv_pairs@),
        ensures
            final(self).wf(),
            r matches Err(e) ==> Self::write_fails_with(e),
            (forall|key: Seq<u8>| #[trigger]
                final(self).versions(key) == versions_after(
                    old(self).versions(key),
                    written(kv_pairs@, Origin::Ingested(table_id)),
                    key,
                    epoch,
                )) || (r is Err && forall|key: Seq<u8>| #[trigger]
                final(self).versions(key) == old(self).versions(key)),
    ;

    /// As [`StateStore::ingest_batch`], but the pairs are not persisted.
    fn replicate_batch(&mut self, kv_pairs: KvPairs, epoch: HummockEpoch) -> (r: StorageResult<()>)
        requires
            old(self).wf(),
            distinct_keys(kv_pairs@),
        ensures
            final(self).wf(),
            r matches Err(e) ==> Self::write_fails_with(e),
            (forall|key: Seq<u8>| #[trigger]
                final(self).versions(key) == versions_after(
                    old(self).versions(key),
                    written(kv_pairs@, Origin::Replicated),
                    key,
                    epoch,
                )) || (r is Err && forall|key: Seq<u8>| #[trigger]
                final(self).versions(key) == old(self).versions(key)),
    ;

    /// Opens an iterator over a range, as of the epoch.
    fn iter(&self, key_range: &KeyRange, epoch: HummockEpoch) -> (r: StorageResult<Self::Iter>)
        requires
            self.wf(),
        ensures
            r matches Err(e) ==> Self::open_fails_with(e),
            r matches Ok(it) ==> is_scan(
                *self,
                *key_range,
                None,
                epoch,
                ScanDirection::Forward,
                items_view(it.remaining()),
            ),
    ;

    /// Opens an iterator over a range, as of the epoch, from the end of the range.
    fn reverse_iter(&self, key_range: &KeyRange, epoch: HummockEpoch) -> (r: StorageResult<
        Self::Iter,
    >)
        requires
            self.wf(),
        ensures
            r matches Err(e) ==> Self::open_fails_with(e),
            r matches Ok(it) ==> is_scan(
                *self,
                *key_range,
                None,
                epoch,
                ScanDirection::Backward,
                items_view(it.remaining()),
            ),
    ;

    /// Starts a batch of writes to a table of this store.
    fn start_write_batch(&mut self, table_id: StorageTableId) -> (r: WriteBatch<'_, Self>)
        ensures
            r.pairs() == Seq::<(Vec<u8>, StorageValue)>::empty(),
            r.table() == table_id,
            *r.store == *old(self),
            *final(r.store) == *final(self),
    {
        WriteBatch::new(self, table_id)
    }

    /// Waits until the epochs of the tables can be read.
    fn wait_epoch(&self, table_epoch: BTreeMap<StorageTableId, HummockEpoch>) -> (r:
        StorageResult<()>)
        requires
            self.wf(),
        ensures
            r matches Err(e) ==> Self::wait_fails_with(e),
    ;

    /// Persists what was written in an epoch to tables. Without an epoch, what was written in
    /// any. Without tables, what was written to any.
    fn sync(&self, epoch: Option<HummockEpoch>, table_id: Option<Vec<StorageTableId>>) -> (r:
        StorageResult<()>)
        requires
            self.wf(),
        ensures
            r matches Err(e) ==> Self::sync_fails_with(e),
    ;
}

/// Hands out what a store was asked for, one after the other.
pub trait StateStoreIter: Sized {
    type Item;

    /// What was not handed out yet.
    spec fn remaining(&self) -> Seq<Self::Item>;

    /// The errors that a read of the next item may end in.
    spec fn next_fails_with(e: StorageError) -> bool;

    fn next(&mut self) -> (r: StorageResult<Option<Self::Item>>)
        ensures
            r matches Err(e) ==> Self::next_fails_with(e),
            r matches Ok(None) ==> old(self).remaining().len() == 0 && final(self).remaining()
                == old(self).remaining(),
            r matches Ok(Some(item)) ==> old(self).remaining().len() > 0 && item == old(
                self,
            ).remaining()[0] && final(self).remaining() == old(self).remaining().drop_first(),
    ;
}

/// Writes to a table of a store that are collected, and then written together.
#[derive(Debug)]
pub struct WriteBatch<'a, S> {
    /// The store that is written to.
    pub store: &'a mut S,
    pub batch: KvPairs,
    pub table_id: StorageTableId,
}

impl<'a, S> WriteBatch<'a, S> {
    /// The writes so far.
    pub open spec fn pairs(&self) -> Seq<(Vec<u8>, StorageValue)> {
        self.batch@
    }

    pub open spec fn table(&self) -> StorageTableId {
        self.table_id
    }

    pub fn new(store: &'a mut S, table_id: StorageTableId) -> (r: Self)
        ensures
            r.pairs() == Seq::<(Vec<u8>, StorageValue)>::empty(),
            r.table() == table_id,
            *r.store == *old(store),
            *final(r.store) == *final(store),
    {
        WriteBatch { store, batch: Vec::new(), table_id }
    }

    /// Adds a write.
    pub fn put(&mut self, key: Vec<u8>, value: StorageValue)
        ensures
            final(self).pairs() == old(self).pairs().push((key, value)),
            final(self).table() == old(self).table(),
            final(self).store == old(self).store,
    {
        self.batch.push((key, value));
    }

    /// Adds writes.
    pub fn put_all(&mut self, kv_pairs: KvPairs)
        ensures
            final(self).pairs() == old(self).pairs() + kv_pairs@,
            final(self).table() == old(self).table(),
            final(self).store == old(self).store,
    {
        let mut kv_pairs = kv_pairs;
        self.batch.append(&mut kv_pairs);
    }
}

impl<'a, S: StateStore> WriteBatch<'a, S> {
    /// Writes all to the store.
    pub fn ingest(self, epoch: HummockEpoch) -> (r: StorageResult<()>)
        requires
            old(self.store).wf(),
            distinct_keys(self.pairs()),
        ensures
            final(self.store).wf(),
            r matches Err(e) ==> S::write_fails_with(e),
            (forall|key: Seq<u8>| #[trigger]
                final(self.store).versions(key) == versions_after(
                    old(self.store).versions(key),
                    written(self.pairs(), Origin::Ingested(self.table())),
                    key,
                    epoch,
                )) || (r is Err && forall|key: Seq<u8>| #[trigger]
                final(self.store).versions(key) == old(self.store).versions(key)),
    {
        self.store.ingest_batch(self.batch, epoch, self.table_id)
    }
}

/// A key is in a range exactly when it is on neither side of it.
pub proof fn ends_of_a_range(range: KeyRange, key: Seq<u8>)
    ensures
        range.contains_key(key) ==> match range.start {
            KeyBound::Included(s) => !before(key, s@),
            KeyBound::Excluded(s) => key != s@ && !before(key, s@),
            KeyBound::Unbounded => true,
        },
        range.contains_key(key) ==> match range.end {
            KeyBound::Included(e) => !before(e@, key),
            KeyBound::Excluded(e) => key != e@ && !before(e@, key),
            KeyBound::Unbounded => true,
        },
        !range.contains_key(key) ==> {
            ||| (range.start matches KeyBound::Included(s) && before(key, s@))
            ||| (range.start matches KeyBound::Excluded(s) && (key == s@ || before(key, s@)))
            ||| (range.end matches KeyBound::Included(e) && before(e@, key))
            ||| (range.end matches KeyBound::Excluded(e) && (key == e@ || before(e@, key)))
        },
{
    match range.start {
        KeyBound::Included(s) => {
            lemma_one_way(s@, key);
        },
        KeyBound::Excluded(s) => {
            lemma_one_way(s@, key);
        },
        KeyBound::Unbounded => {},
    }
    match range.end {
        KeyBound::Included(e) => {
            lemma_one_way(e@, key);
        },
        KeyBound::Excluded(e) => {
            lemma_one_way(e@, key);
        },
        KeyBound::Unbounded => {},
    }
}

proof fn lemma_one_way(a: Seq<u8>, b: Seq<u8>)
    ensures
        !(before(a, b) && before(b, a)),
        a == b || before(a, b) || before(b, a),
        !before(a, a),
{
    before_irreflexive(a);
    if a != b {
        before_total(a, b);
    }
    if before(a, b) && before(b, a) {
        before_transitive(a, b, a);
    }
}

/// What a scan gives: keys of the range that can be read, with their values, each before the next,
/// no more than the limit, and all of them where there are fewer than the limit.
pub proof fn scans_give_what_can_be_read<S: StoreHistory>(
    store: S,
    range: KeyRange,
    limit: Option<usize>,
    epoch: u64,
    items: Seq<(Seq<u8>, Seq<u8>)>,
    key: Seq<u8>,
    forward: bool,
)
    requires
        is_scan(
            store,
            range,
            limit,
            epoch,
            if forward {
                ScanDirection::Forward
            } else {
                ScanDirection::Backward
            },
            items,
        ),
    ensures
        limit matches Some(n) ==> items.len() <= n,
        forall|i: int|
            #![trigger items[i]]
            0 <= i < items.len() ==> range.contains_key(items[i].0) && newest(
                store.versions(items[i].0),
                epoch,
            ) == Some(items[i].1),
        forall|i: int, j: int|
            #![trigger items[i], items[j]]
            0 <= i < j < items.len() ==> (if forward {
                before(items[i].0, items[j].0)
            } else {
                before(items[j].0, items[i].0)
            }),
        range.contains_key(key) && newest(store.versions(key), epoch) is Some && (
        limit matches Some(n) ==> items.len() < n) ==> exists|i: int|
            0 <= i < items.len() && (#[trigger] items[i]).0 == key,
{
    assert(visible(store, key, epoch) == newest(store.versions(key), epoch));
    assert forall|i: int|
        #![trigger items[i]]
        0 <= i < items.len() implies range.contains_key(items[i].0) && newest(
        store.versions(items[i].0),
        epoch,
    ) == Some(items[i].1) by {
        assert(visible(store, items[i].0, epoch) == Some(items[i].1));
    }
}

/// After a batch is written, each of its pairs is the version of its key in the epoch, and the
/// other versions and the other keys are as they were.
pub proof fn batches_write_their_pairs(
    pairs: Seq<(Vec<u8>, StorageValue)>,
    origin: Origin,
    v: Versions,
    epoch: u64,
    i: int,
    other: Seq<u8>,
)
    requires
        distinct_keys(pairs),
        0 <= i < pairs.len(),
        forall|j: int| 0 <= j < pairs.len() ==> (#[trigger] pairs[j]).0@ != other,
    ensures
        versions_after(v, written(pairs, origin), other, epoch) == v,
        ({
            let after = versions_after(v, written(pairs, origin), pairs[i].0@, epoch);
            let value = match pairs[i].1.user_value {
                Some(b) => Some(b@),
                None => None,
            };
            &&& after.dom() == v.dom().insert(epoch)
            &&& after[epoch].value == value
            &&& after[epoch].value_meta == pairs[i].1.value_meta
            &&& after[epoch].origin == origin
            &&& forall|e: u64| e != epoch && v.dom().contains(e) ==> #[trigger] after[e] == v[e]
            &&& newest(after, epoch) == value
        }),
    decreases pairs.len(),
{
    lemma_written_pair(pairs, origin, i);
    lemma_not_written(pairs, origin, other);
    let version = pairs[i].1.version(origin);
    written_is_newest(v, epoch, version);
    assert(v.insert(epoch, version).dom() =~= v.dom().insert(epoch));
}

proof fn lemma_not_written(
    pairs: Seq<(Vec<u8>, StorageValue)>,
    origin: Origin,
    other: Seq<u8>,
)
    requires
        forall|j: int| 0 <= j < pairs.len() ==> (#[trigger] pairs[j]).0@ != other,
    ensures
        !written(pairs, origin).dom().contains(other),
    decreases pairs.len(),
{
    if pairs.len() > 0 {
        let front = pairs.drop_last();
        assert forall|j: int| 0 <= j < front.len() implies (#[trigger] front[j]).0@ != other by {
            assert(front[j] == pairs[j]);
        }
        lemma_not_written(front, origin, other);
        assert(pairs[pairs.len() - 1].0@ != other);
    }
}

proof fn lemma_written_pair(pairs: Seq<(Vec<u8>, StorageValue)>, origin: Origin, i: int)
    requires
        distinct_keys(pairs),
        0 <= i < pairs.len(),
    ensures
        written(pairs, origin).dom().contains(pairs[i].0@),
        written(pairs, origin)[pairs[i].0@] == pairs[i].1.version(origin),
    decreases pairs.len(),
{
    let n = pairs.len() - 1;
    if i < n {
        let front = pairs.drop_last();
        assert forall|a: int, b: int|
            #![trigger front[a], front[b]]
            0 <= a < b < front.len() implies front[a].0@ != front[b].0@ by {
            assert(pairs[a].0@ != pairs[b].0@);
        }
        lemma_written_pair(front, origin, i);
        assert(front[i] == pairs[i]);
        assert(pairs[i].0@ != pairs[n].0@);
    }
}

} // verus!
