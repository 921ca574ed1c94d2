//! A store that keeps everything in memory.
use std::collections::BTreeMap;

use vstd::prelude::*;

use crate::byte_order::{before, lemma_entry_map, OrderedMap};
use crate::scalar::clone_bytes;
use crate::store::{
    distinct_keys, has_item, is_latest, is_scan, item_view, items_view, lemma_newest, met_before,
    newest, versions_after, visible, written, HummockEpoch, Item, KeyRange, KvPairs, Origin,
    ScanDirection, StateStore, StateStoreIter, StorageError, StorageResult, StorageTableId,
    StorageValue, StoreHistory, Version, Versions,
};

verus! {

/// The writes to one key, in the order in which they were made.
pub type Log = Vec<(u64, Origin, StorageValue)>;

/// What a logged write comes to.
pub open spec fn logged(entry: (u64, Origin, StorageValue)) -> Version {
    entry.2.version(entry.1)
}

/// The versions that a log holds. A later write in an epoch takes the place of an earlier one.
pub open spec fn log_versions(log: Seq<(u64, Origin, StorageValue)>) -> Versions
    decreases log.len(),
{
    if log.len() == 0 {
        Map::empty()
    } else {
        log_versions(log.drop_last()).insert(log.last().0, logged(log.last()))
    }
}

/// A store that keeps everything in memory.
#[derive(Debug)]
pub struct MemoryStateStore {
    map: OrderedMap<Log>,
}

/// An iterator over pairs that were read from memory.
#[derive(Debug)]
pub struct MemoryStateStoreIter {
    /// The pairs to hand out, the last one first.
    rest: Vec<Item>,
}

impl StateStoreIter for MemoryStateStoreIter {
    type Item = Item;

    closed spec fn remaining(&self) -> Seq<Item> {
        self.rest@.reverse()
    }

    /// A read does not fail.
    open spec fn next_fails_with(e: StorageError) -> bool {
        false
    }

    fn next(&mut self) -> (r: StorageResult<Option<Item>>)
        ensures
            r is Ok,
    {
        let ghost was = self.rest@;
        let item = self.rest.pop();
        proof {
            if was.len() > 0 {
                assert(was.reverse().drop_first() =~= was.drop_last().reverse());
            }
        }
        Ok(item)
    }
}

impl StoreHistory for MemoryStateStore {
    closed spec fn versions(&self, key: Seq<u8>) -> Versions {
        if self.map@.dom().contains(key) {
            log_versions(self.map@[key]@)
        } else {
            Map::empty()
        }
    }
}

/// The place in the log of the newest version up to the epoch.
fn newest_place(log: &Log, epoch: u64) -> (r: Option<usize>)
    ensures
        match r {
            Some(i) => i < log@.len() && is_latest(log_versions(log@), epoch, log@[i as int].0)
                && log_versions(log@)[log@[i as int].0] == logged(log@[i as int]),
            None => forall|e: u64| #[trigger] log_versions(log@).dom().contains(e) ==> e > epoch,
        },
{
    let mut best: Option<usize> = None;
    let mut i: usize = 0;
    while i < log.len()
        invariant
            i <= log@.len(),
            match best {
                Some(b) => {
                    let v = log_versions(log@.take(i as int));
                    &&& b < i
                    &&& is_latest(v, epoch, log@[b as int].0)
                    &&& v[log@[b as int].0] == logged(log@[b as int])
                },
                None => forall|e: u64| #[trigger]
                    log_versions(log@.take(i as int)).dom().contains(e) ==> e > epoch,
            },
        decreases log@.len() - i,
    {
        let ghost v = log_versions(log@.take(i as int));
        proof {
            let longer = log@.take(i + 1);
            assert(longer.drop_last() =~= log@.take(i as int));
            assert(longer.last() == log@[i as int]);
            assert(log_versions(longer) == v.insert(log@[i as int].0, logged(log@[i as int])));
        }
        let e: u64 = log[i].0;
        if e <= epoch {
            match best {
                None => {
                    best = Some(i);
                },
                Some(b) => {
                    assert(v.dom().contains(log@[b as int].0));
                    if e >= log[b].0 {
                        best = Some(i);
                    }
                },
            }
        }
        proof {
            let w = log_versions(log@.take(i + 1));
            if let Some(b) = best {
                assert(is_latest(w, epoch, log@[b as int].0)) by {
                    assert forall|f: u64| #[trigger] w.dom().contains(f) && f <= epoch implies f
                        <= log@[b as int].0 by {
                        if f != e {
                            assert(v.dom().contains(f));
                        }
                    }
                }
            } else {
                assert forall|f: u64| #[trigger] w.dom().contains(f) implies f > epoch by {
                    if f != e {
                        assert(v.dom().contains(f));
                    }
                }
            }
        }
        i = i + 1;
    }
    assert(log@.take(log@.len() as int) =~= log@);
    best
}

/// The value as of the epoch, by the log of a key.
fn newest_in_log(log: &Log, epoch: u64) -> (r: Option<Vec<u8>>)
    ensures
        newest(log_versions(log@), epoch) == match r {
            Some(b) => Some(b@),
            None => None,
        },
{
    match newest_place(log, epoch) {
        Some(i) => {
            proof {
                lemma_newest(log_versions(log@), epoch, log@[i as int].0);
            }
            match &log[i].2.user_value {
                Some(b) => Some(clone_bytes(b.as_slice())),
                None => None,
            }
        },
        None => {
            proof {
                assert forall|e: u64| !is_latest(log_versions(log@), epoch, e) by {
                    if is_latest(log_versions(log@), epoch, e) {
                        assert(log_versions(log@).dom().contains(e));
                    }
                }
            }
            None
        },
    }
}

impl MemoryStateStore {
    pub fn new() -> (r: Self)
        ensures
            r.wf(),
            forall|key: Seq<u8>| #[trigger] r.versions(key) == Map::<u64, Version>::empty(),
    {
        MemoryStateStore { map: OrderedMap::new() }
    }

    /// A key that reads as something is in the map.
    proof fn visible_is_entry(&self, key: Seq<u8>, epoch: u64)
        requires
            self.wf(),
            visible(*self, key, epoch) is Some,
        ensures
            exists|i: int|
                0 <= i < self.map.entries_view().len() && (
                #[trigger] self.map.entries_view()[i]).0 == key,
    {
        lemma_entry_map(self.map.entries_view(), key);
        if !self.map@.dom().contains(key) {
            let v = Map::<u64, Version>::empty();
            assert(self.versions(key) == v);
            assert forall|e: u64| !is_latest(v, epoch, e) by {}
        }
    }

    /// The pairs of a range, in either direction.
    fn scan_with(
        &self,
        key_range: &KeyRange,
        limit: Option<usize>,
        epoch: HummockEpoch,
        direction: ScanDirection,
    ) -> (r: Vec<Item>)
        requires
            self.wf(),
        ensures
            is_scan(*self, *key_range, limit, epoch, direction, items_view(r@)),
    {
        let mut items: Vec<Item> = Vec::new();
        let n: usize = self.map.len();
        let ghost es = self.map.entries_view();
        let forward = match direction {
            ScanDirection::Forward => true,
            ScanDirection::Backward => false,
        };
        let mut k: usize = 0;
        while k < n
            invariant
                k <= n,
                n == es.len(),
                es == self.map.entries_view(),
                self.wf(),
                forward == (direction == ScanDirection::Forward),
                limit matches Some(l) ==> items@.len() <= l,
                scanned(*self, *key_range, epoch, direction, es, k as int, items_view(items@)),
            decreases n - k,
        {
            let full = match limit {
                Some(l) => items.len() >= l,
                None => false,
            };
            if full {
                proof {
                    self.lemma_scan_done(
                        *key_range,
                        limit,
                        epoch,
                        direction,
                        k as int,
                        items_view(items@),
                    );
                }
                return items;
            }
            let at: usize = if forward {
                k
            } else {
                n - 1 - k
            };
            let key = self.map.key_at(at);
            let log = self.map.value_at(at);
            proof {
                lemma_entry_map(es, key@);
                assert(es[at as int].0 == key@);
                assert(self.map@[key@] == *log);
                assert(self.versions(key@) == log_versions(log@));
            }
            let ghost was = items@;
            if key_range.contains(key.as_slice()) {
                match newest_in_log(log, epoch) {
                    Some(value) => {
                        let item: Item = (clone_bytes(key.as_slice()), value);
                        items.push(item);
                        assert(items_view(items@) =~= items_view(was).push(item_view(item)));
                        assert(visible(*self, key@, epoch) == Some(item.1@));
                    },
                    None => {
                        assert(visible(*self, key@, epoch) is None);
                    },
                }
            }
            proof {
                lemma_scan_step(
                    *self,
                    *key_range,
                    epoch,
                    direction,
                    es,
                    k as int,
                    items_view(was),
                    items_view(items@),
                );
            }
            k = k + 1;
        }
        proof {
            self.lemma_scan_done(
                *key_range,
                limit,
                epoch,
                direction,
                k as int,
                items_view(items@),
            );
        }
        items
    }

    proof fn lemma_scan_done(
        &self,
        range: KeyRange,
        limit: Option<usize>,
        epoch: u64,
        direction: ScanDirection,
        k: int,
        items: Seq<(Seq<u8>, Seq<u8>)>,
    )
        requires
            self.wf(),
            0 <= k <= self.map.entries_view().len(),
            scanned(*self, range, epoch, direction, self.map.entries_view(), k, items),
            limit matches Some(l) ==> items.len() <= l,
            k == self.map.entries_view().len() || (limit matches Some(l) && l == items.len()),
        ensures
            is_scan(*self, range, limit, epoch, direction, items),
    {
        let es = self.map.entries_view();
        assert forall|key: Seq<u8>|
            #![trigger visible(*self, key, epoch)]
            range.contains_key(key) && visible(*self, key, epoch) is Some && !has_item(
                items,
                key,
            ) implies {
            &&& limit matches Some(n) && n == items.len()
            &&& forall|i: int|
                #![trigger items[i]]
                0 <= i < items.len() ==> met_before(items[i].0, key, direction)
        } by {
            self.visible_is_entry(key, epoch);
            let at = choose|at: int| 0 <= at < es.len() && (#[trigger] es[at]).0 == key;
            let m = place(es.len() as int, direction, at);
            assert(place(es.len() as int, direction, m) == at);
            if m < k {
                assert(es[place(es.len() as int, direction, m)].0 == key);
                assert(has_item(items, key));
            }
            assert forall|i: int| #![trigger items[i]] 0 <= i < items.len() implies met_before(
                items[i].0,
                key,
                direction,
            ) by {
                let j = choose|j: int|
                    0 <= j < k && (#[trigger] es[place(es.len() as int, direction, j)]).0
                        == items[i].0;
                let p = place(es.len() as int, direction, j);
                if direction == ScanDirection::Forward {
                    assert(before(es[p].0, es[at].0));
                } else {
                    assert(before(es[at].0, es[p].0));
                }
            }
        }
        assert forall|i: int, j: int|
            #![trigger items[i], items[j]]
            0 <= i < j < items.len() implies met_before(items[i].0, items[j].0, direction) by {}
    }

    /// Writes one pair.
    fn write(&mut self, key: Vec<u8>, value: StorageValue, epoch: u64, origin: Origin)
        requires
            old(self).wf(),
        ensures
            final(self).wf(),
            forall|k: Seq<u8>| #[trigger]
                final(self).versions(k) == (if k == key@ {
                    old(self).versions(k).insert(epoch, value.version(origin))
                } else {
                    old(self).versions(k)
                }),
    {
        let mut log: Log = match self.map.remove(key.as_slice()) {
            Some(log) => log,
            None => Vec::new(),
        };
        let ghost was = log@;
        assert(log_versions(was) == old(self).versions(key@));
        log.push((epoch, origin, value));
        assert(log@.drop_last() =~= was);
        let ghost k = key@;
        self.map.insert(key, log);
        proof {
            assert(self.versions(k) == old(self).versions(k).insert(epoch, value.version(origin)));
            assert forall|x: Seq<u8>| x != k implies #[trigger] self.versions(x) == old(
                self,
            ).versions(x) by {
                assert(self.map@.dom().contains(x) <==> old(self).map@.dom().contains(x));
            }
        }
    }

    /// Writes a batch.
    fn write_all(&mut self, kv_pairs: KvPairs, epoch: u64, origin: Origin)
        requires
            old(self).wf(),
            distinct_keys(kv_pairs@),
        ensures
            final(self).wf(),
            forall|key: Seq<u8>| #[trigger]
                final(self).versions(key) == versions_after(
                    old(self).versions(key),
                    written(kv_pairs@, origin),
                    key,
                    epoch,
                ),
    {
        let ghost all = kv_pairs@;
        let ghost mut i: int = 0;
        assert(all.take(0) =~= Seq::empty());
        for pair in iter: kv_pairs
            invariant
                iter.seq() == all,
                i == iter.index(),
                distinct_keys(all),
                self.wf(),
                forall|key: Seq<u8>| #[trigger]
                    self.versions(key) == versions_after(
                        old(self).versions(key),
                        written(all.take(i), origin),
                        key,
                        epoch,
                    ),
        {
            let ghost before_write = *self;
            let (key, value) = pair;
            proof {
                assert(all[i] == pair);
                lemma_written(all.take(i), origin);
                assert(all.take(i + 1).drop_last() =~= all.take(i));
                assert(all.take(i + 1).last() == pair);
            }
            let ghost k = key@;
            self.write(key, value, epoch, origin);
            proof {
                assert(!written(all.take(i), origin).dom().contains(k)) by {
                    if written(all.take(i), origin).dom().contains(k) {
                        let j = choose|j: int| 0 <= j < i && (#[trigger] all.take(i)[j]).0@ == k;
                        assert(all[j].0@ != all[i].0@);
                    }
                }
                assert forall|x: Seq<u8>| #[trigger] self.versions(x) == versions_after(
                    old(self).versions(x),
                    written(all.take(i + 1), origin),
                    x,
                    epoch,
                ) by {
                    assert(before_write.versions(x) == versions_after(
                        old(self).versions(x),
                        written(all.take(i), origin),
                        x,
                        epoch,
                    ));
                }
                i = i + 1;
            }
        }
        assert(all.take(all.len() as int) =~= all);
    }
}

proof fn lemma_written(pairs: Seq<(Vec<u8>, StorageValue)>, origin: Origin)
    ensures
        forall|k: Seq<u8>| #[trigger]
            written(pairs, origin).dom().contains(k) ==> exists|j: int|
                0 <= j < pairs.len() && (#[trigger] pairs[j]).0@ == k,
    decreases pairs.len(),
{
    if pairs.len() > 0 {
        lemma_written(pairs.drop_last(), origin);
        assert forall|k: Seq<u8>| #[trigger] written(pairs, origin).dom().contains(k) implies exists|j: int|
            0 <= j < pairs.len() && (#[trigger] pairs[j]).0@ == k by {
            if k == pairs.last().0@ {
                assert(pairs[pairs.len() - 1].0@ == k);
            } else {
                assert(written(pairs.drop_last(), origin).dom().contains(k));
                let j = choose|j: int|
                    0 <= j < pairs.drop_last().len() && (#[trigger] pairs.drop_last()[j]).0@ == k;
                assert(pairs[j].0@ == k);
            }
        }
    }
}

/// The place of the entry that is met at step `k`.
spec fn place(n: int, direction: ScanDirection, k: int) -> int {
    match direction {
        ScanDirection::Forward => k,
        ScanDirection::Backward => n - 1 - k,
    }
}

/// `items` are the pairs of the entries that were met in the first `k` steps.
spec fn scanned(
    store: MemoryStateStore,
    range: KeyRange,
    epoch: u64,
    direction: ScanDirection,
    es: Seq<(Seq<u8>, Log)>,
    k: int,
    items: Seq<(Seq<u8>, Seq<u8>)>,
) -> bool {
    &&& forall|i: int, j: int|
        #![trigger items[i], items[j]]
        0 <= i < j < items.len() ==> met_before(items[i].0, items[j].0, direction)
    &&& forall|i: int|
        #![trigger items[i]]
        0 <= i < items.len() ==> range.contains_key(items[i].0) && visible(store, items[i].0, epoch)
            == Some(items[i].1) && exists|j: int|
            0 <= j < k && (#[trigger] es[place(es.len() as int, direction, j)]).0 == items[i].0
    &&& forall|j: int|
        #![trigger es[place(es.len() as int, direction, j)]]
        0 <= j < k ==> {
            let key = es[place(es.len() as int, direction, j)].0;
            range.contains_key(key) && visible(store, key, epoch) is Some ==> has_item(items, key)
        }
}

proof fn lemma_scan_step(
    store: MemoryStateStore,
    range: KeyRange,
    epoch: u64,
    direction: ScanDirection,
    es: Seq<(Seq<u8>, Log)>,
    k: int,
    was: Seq<(Seq<u8>, Seq<u8>)>,
    now: Seq<(Seq<u8>, Seq<u8>)>,
)
    requires
        store.wf(),
        es == store.map.entries_view(),
        0 <= k < es.len(),
        scanned(store, range, epoch, direction, es, k, was),
        ({
            let key = es[place(es.len() as int, direction, k)].0;
            match visible(store, key, epoch) {
                Some(v) if range.contains_key(key) => now == was.push((key, v)),
                _ => now == was,
            }
        }),
    ensures
        scanned(store, range, epoch, direction, es, k + 1, now),
{
    let n = es.len() as int;
    let key = es[place(n, direction, k)].0;
    assert forall|i: int|
        #![trigger now[i]]
        0 <= i < now.len() implies range.contains_key(now[i].0) && visible(store, now[i].0, epoch)
        == Some(now[i].1) && exists|j: int|
        0 <= j < k + 1 && (#[trigger] es[place(n, direction, j)]).0 == now[i].0 by {
        if i < was.len() {
            assert(now[i] == was[i]);
            let j = choose|j: int|
                0 <= j < k && (#[trigger] es[place(n, direction, j)]).0 == was[i].0;
            assert(es[place(n, direction, j)].0 == now[i].0);
        } else {
            assert(es[place(n, direction, k)].0 == now[i].0);
        }
    }
    assert forall|i: int, j: int|
        #![trigger now[i], now[j]]
        0 <= i < j < now.len() implies met_before(now[i].0, now[j].0, direction) by {
        assert(now[i] == was[i]);
        if j < was.len() {
            assert(now[j] == was[j]);
        } else {
            let m = choose|m: int|
                0 <= m < k && (#[trigger] es[place(n, direction, m)]).0 == was[i].0;
            let (p, q) = (place(n, direction, m), place(n, direction, k));
            if direction == ScanDirection::Forward {
                assert(before(es[p].0, es[q].0));
            } else {
                assert(before(es[q].0, es[p].0));
            }
        }
    }
    assert forall|j: int|
        #![trigger es[place(n, direction, j)]]
        0 <= j < k + 1 implies {
        let key = es[place(n, direction, j)].0;
        range.contains_key(key) && visible(store, key, epoch) is Some ==> has_item(now, key)
    } by {
        let x = es[place(n, direction, j)].0;
        if range.contains_key(x) && visible(store, x, epoch) is Some {
            if j < k {
                assert(has_item(was, x));
                let i = choose|i: int| 0 <= i < was.len() && (#[trigger] was[i]).0 == x;
                assert(now[i].0 == x);
            } else {
                assert(now[now.len() - 1].0 == x);
            }
        }
    }
}

impl StateStore for MemoryStateStore {
    type Iter = MemoryStateStoreIter;

    closed spec fn wf(&self) -> bool {
        self.map.wf()
    }

    /// A read does not fail.
    open spec fn get_fails_with(e: StorageError) -> bool {
        false
    }

    /// A scan does not fail.
    open spec fn scan_fails_with(e: StorageError) -> bool {
        false
    }

    /// A write does not fail.
    open spec fn write_fails_with(e: StorageError) -> bool {
        false
    }

    /// Opening an iterator does not fail.
    open spec fn open_fails_with(e: StorageError) -> bool {
        false
    }

    /// Waiting does not fail.
    open spec fn wait_fails_with(e: StorageError) -> bool {
        false
    }

    /// Persisting nothing does not fail.
    open spec fn sync_fails_with(e: StorageError) -> bool {
        false
    }

    fn get(&self, key: &[u8], epoch: HummockEpoch) -> (r: StorageResult<Option<Vec<u8>>>)
        ensures
            r is Ok,
    {
        match self.map.get(key) {
            Some(log) => Ok(newest_in_log(log, epoch)),
            None => {
                proof {
                    let v = Map::<u64, Version>::empty();
                    assert(self.versions(key@) == v);
                    assert forall|e: u64| !is_latest(v, epoch, e) by {}
                }
                Ok(None)
            },
        }
    }

    fn scan(&self, key_range: &KeyRange, limit: Option<usize>, epoch: HummockEpoch) -> (r:
        StorageResult<Vec<Item>>)
        ensures
            r is Ok,
    {
        Ok(self.scan_with(key_range, limit, epoch, ScanDirection::Forward))
    }

    fn reverse_scan(&self, key_range: &KeyRange, limit: Option<usize>, epoch: HummockEpoch) -> (r:
        StorageResult<Vec<Item>>)
        ensures
            r is Ok,
    {
        Ok(self.scan_with(key_range, limit, epoch, ScanDirection::Backward))
    }

    fn ingest_batch(
        &mut self,
        kv_pairs: KvPairs,
        epoch: HummockEpoch,
        table_id: StorageTableId,
    ) -> (r: StorageResult<()>)
        ensures
            r is Ok,
    {
        self.write_all(kv_pairs, epoch, Origin::Ingested(table_id));
        Ok(())
    }

    fn replicate_batch(&mut self, kv_pairs: KvPairs, epoch: HummockEpoch) -> (r: StorageResult<()>)
        ensures
            r is Ok,
    {
        self.write_all(kv_pairs, epoch, Origin::Replicated);
        Ok(())
    }

    fn iter(&self, key_range: &KeyRange, epoch: HummockEpoch) -> (r: StorageResult<Self::Iter>)
        ensures
            r is Ok,
    {
        Ok(reversed(self.scan_with(key_range, None, epoch, ScanDirection::Forward)))
    }

    fn reverse_iter(&self, key_range: &KeyRange, epoch: HummockEpoch) -> (r: StorageResult<
        Self::Iter,
    >)
        ensures
            r is Ok,
    {
        Ok(reversed(self.scan_with(key_range, None, epoch, ScanDirection::Backward)))
    }

    /// Everything can be read as soon as it is written.
    fn wait_epoch(&self, table_epoch: BTreeMap<StorageTableId, HummockEpoch>) -> (r:
        StorageResult<()>)
        ensures
            r is Ok,
    {
        Ok(())
    }

    /// Nothing is persisted.
    fn sync(&self, epoch: Option<HummockEpoch>, table_id: Option<Vec<StorageTableId>>) -> (r:
        StorageResult<()>)
        ensures
            r is Ok,
    {
        Ok(())
    }
}

/// An iterator over pairs.
fn reversed(items: Vec<Item>) -> (r: MemoryStateStoreIter)
    ensures
        r.remaining() == items@,
{
    let ghost all = items@;
    let mut items = items;
    let mut rest: Vec<Item> = Vec::new();
    while items.len() > 0
        invariant
            items@ + rest@.reverse() =~= all,
        decreases items@.len(),
    {
        let ghost (front, back) = (items@, rest@);
        match items.pop() {
            Some(item) => {
                rest.push(item);
                assert(rest@.reverse() =~= seq![item] + back.reverse());
                assert(front =~= items@.push(item));
            },
            None => {},
        }
    }
    assert(rest@.reverse() =~= all);
    MemoryStateStoreIter { rest }
}

} // verus!
