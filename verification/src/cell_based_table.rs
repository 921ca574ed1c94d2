//! Tables whose rows are kept in a store, each row in one cell.
use std::sync::Arc;

use vstd::prelude::*;

use crate::byte_order::{ascending, before, before_irreflexive, entry_map};
use crate::hash_code::{xxhash64, XxHash64Builder};
use crate::keyspace::{prefixed, prefixed_keys_differ, range_of_prefix, Keyspace};
use crate::mem_table::{item_ops, parts_view, MemTableItem, Op, Row, RowOp};
use crate::ordered::{ordered_row, serialize_pk, OrderedRowSerializer};
use crate::property::OrderType;
use crate::scalar::{DataType, Scalar};
use crate::store::{
    is_scan, items_view, newest, versions_after, visible, written, HummockEpoch, Item, KeyRange,
    KvPairs, Origin, ScanDirection, StateStore, StateStoreIter, StorageError, StorageResult,
    StorageValue, StoreHistory, Version, Versions, GLOBAL_STORAGE_TABLE_ID,
};
use crate::value_encoding::{
    decode_row, row_bytes, serialize_datums_into, RowDeserializer, ValueEncodingError,
};

verus! {

/// The number of a column.
#[derive(Clone, Copy, Debug, PartialEq, Eq, Structural)]
pub struct ColumnId {
    pub id: i32,
}

impl From<i32> for ColumnId {
    fn from(id: i32) -> (r: Self) {
        ColumnId { id }
    }
}

impl vstd::std_specs::convert::FromSpecImpl<i32> for ColumnId {
    open spec fn obeys_from_spec() -> bool {
        true
    }

    open spec fn from_spec(id: i32) -> Self {
        ColumnId { id }
    }
}

/// A column of a table.
#[derive(Debug)]
pub struct ColumnDesc {
    pub column_id: ColumnId,
    pub data_type: DataType,
}

impl ColumnDesc {
    pub fn unnamed(column_id: ColumnId, data_type: DataType) -> (r: Self)
        ensures
            r.column_id == column_id,
            r.data_type == data_type,
    {
        ColumnDesc { column_id, data_type }
    }
}

/// The types of columns.
pub open spec fn column_types(descs: Seq<ColumnDesc>) -> Seq<DataType> {
    descs.map_values(|d: ColumnDesc| d.data_type)
}

/// The row that a stored value denotes.
pub open spec fn decoded(value: Option<Seq<u8>>, tys: Seq<DataType>) -> Result<
    Option<Seq<Option<Scalar>>>,
    ValueEncodingError,
> {
    match value {
        None => Ok(None),
        Some(b) => match decode_row(b, tys) {
            Ok((row, _)) => Ok(Some(row)),
            Err(e) => Err(e),
        },
    }
}

/// What reading a row comes to, where the store does not fail.
pub open spec fn row_answer(
    row: Result<Option<Seq<Option<Scalar>>>, ValueEncodingError>,
) -> Result<Option<Seq<Option<Scalar>>>, StorageError> {
    match row {
        Ok(found) => Ok(found),
        Err(e) => Err(StorageError::CellBasedTable(e)),
    }
}

/// What the result of reading a row stands for.
pub open spec fn result_view(r: StorageResult<Option<Row>>) -> Result<
    Option<Seq<Option<Scalar>>>,
    StorageError,
> {
    match r {
        Ok(Some(row)) => Ok(Some(row@)),
        Ok(None) => Ok(None),
        Err(e) => Err(e),
    }
}

/// What a change writes.
pub open spec fn op_value(op: Op) -> Option<Seq<u8>> {
    match op.row_after() {
        Some(row) => Some(row_bytes(row)),
        None => None,
    }
}

/// The number of groups that rows fall into.
pub const VIRTUAL_NODE_COUNT: u64 = 2048;

/// The group of a row, by its key.
pub open spec fn virtual_node(key: Seq<u8>) -> u16 {
    (xxhash64(key) % VIRTUAL_NODE_COUNT) as u16
}

/// What a change writes under a key. The group of the row is kept beside the value, or not.
pub open spec fn row_version(key: Seq<u8>, op: Op, with_value_meta: bool) -> Version {
    Version {
        value: op_value(op),
        value_meta: if with_value_meta {
            virtual_node(key)
        } else {
            0
        },
        origin: Origin::Ingested(GLOBAL_STORAGE_TABLE_ID),
    }
}

/// What changes write under their keys.
pub open spec fn row_writes(ops: Map<Seq<u8>, Op>, with_value_meta: bool) -> Map<
    Seq<u8>,
    Version,
> {
    Map::new(
        |key: Seq<u8>| ops.dom().contains(key),
        |key: Seq<u8>| row_version(key, ops[key], with_value_meta),
    )
}

/// A table whose rows are kept in a store: under the key of its primary key, a row is kept as
/// the byte forms of its columns.
#[derive(Clone)]
pub struct CellBasedTable<S: StateStore> {
    keyspace: Keyspace<S>,
    data_types: Arc<Vec<DataType>>,
    pk_serializer: OrderedRowSerializer,
}

impl<S: StateStore> CellBasedTable<S> {
    pub closed spec fn types(&self) -> Seq<DataType> {
        self.data_types@
    }

    pub closed spec fn orders(&self) -> Seq<OrderType> {
        self.pk_serializer.orders()
    }

    pub closed spec fn prefix(&self) -> Seq<u8> {
        self.keyspace.prefix_view()
    }

    pub closed spec fn store(&self) -> S {
        self.keyspace.store_view()
    }

    pub open spec fn wf(&self) -> bool {
        self.store().wf()
    }

    /// What was written under the key of a row.
    pub open spec fn versions_of(&self, key: Seq<u8>) -> Versions {
        self.store().versions(self.prefix() + key)
    }

    /// The row that is stored under a key, as of the epoch.
    pub open spec fn stored(&self, key: Seq<u8>, epoch: u64) -> Result<
        Option<Seq<Option<Scalar>>>,
        ValueEncodingError,
    > {
        decoded(newest(self.versions_of(key), epoch), self.types())
    }

    /// The same table, but for what is in the store.
    pub open spec fn same_table(&self, other: Self) -> bool {
        &&& self.types() == other.types()
        &&& self.orders() == other.orders()
        &&& self.prefix() == other.prefix()
    }

    pub fn new(
        keyspace: Keyspace<S>,
        column_descs: Vec<ColumnDesc>,
        pk_serializer: OrderedRowSerializer,
    ) -> (r: Self)
        ensures
            r.types() == column_types(column_descs@),
            r.orders() == pk_serializer.orders(),
            r.prefix() == keyspace.prefix_view(),
            r.store() == keyspace.store_view(),
    {
        let ghost descs = column_descs@;
        let mut data_types: Vec<DataType> = Vec::new();
        for desc in iter: column_descs
            invariant
                iter.seq() == descs,
                data_types@.len() == iter.index(),
                forall|j: int|
                    0 <= j < data_types@.len() ==> #[trigger] data_types@[j]
                        == descs[j].data_type,
        {
            assert(descs[data_types@.len() as int] == desc);
            data_types.push(desc.data_type);
        }
        assert(data_types@ =~= column_types(descs));
        CellBasedTable { keyspace, data_types: Arc::new(data_types), pk_serializer }
    }

    /// The stored row of a primary key, as of the epoch.
    ///
    /// Of what the store replies, the row is the one that [`row_of_reply`] makes. An error is the
    /// store's, or says why the stored bytes cannot be read.
    pub fn get_row(&self, pk: &Row, epoch: HummockEpoch) -> (r: StorageResult<Option<Row>>)
        requires
            self.wf(),
        ensures
            result_view(r) == row_answer(
                self.stored(ordered_row(pk@, self.orders()), epoch),
            ) || (r matches Err(e) && S::get_fails_with(e)),
    {
        let key = serialize_pk(pk, &self.pk_serializer);
        let full_key = self.keyspace.prefixed_key(key.as_slice());
        match self.keyspace.state_store().get(full_key.as_slice(), epoch) {
            Ok(reply) => row_of_reply(self.data_types.as_slice(), reply),
            Err(e) => Err(e),
        }
    }

    /// Writes changes to the store.
    pub fn batch_write_rows(
        &mut self,
        parts: Vec<(Vec<u8>, MemTableItem)>,
        epoch: HummockEpoch,
    ) -> (r: StorageResult<()>)
        requires
            old(self).wf(),
            ascending(parts_view(parts@)),
        ensures
            final(self).wf(),
            final(self).same_table(*old(self)),
            r matches Err(e) ==> S::write_fails_with(e),
            rows_written(
                *old(self),
                *final(self),
                item_ops(entry_map(parts_view(parts@))),
                epoch,
                false,
            ) || (r is Err && nothing_written(*old(self), *final(self))),
    {
        self.write_rows(parts, epoch, false)
    }

    /// Writes changes to the store, each value with the group of its row beside it.
    pub fn batch_write_rows_with_value_meta(
        &mut self,
        parts: Vec<(Vec<u8>, MemTableItem)>,
        epoch: HummockEpoch,
    ) -> (r: StorageResult<()>)
        requires
            old(self).wf(),
            ascending(parts_view(parts@)),
        ensures
            final(self).wf(),
            final(self).same_table(*old(self)),
            r matches Err(e) ==> S::write_fails_with(e),
            rows_written(
                *old(self),
                *final(self),
                item_ops(entry_map(parts_view(parts@))),
                epoch,
                true,
            ) || (r is Err && nothing_written(*old(self), *final(self))),
    {
        self.write_rows(parts, epoch, true)
    }

    fn write_rows(
        &mut self,
        parts: Vec<(Vec<u8>, MemTableItem)>,
        epoch: HummockEpoch,
        with_value_meta: bool,
    ) -> (r: StorageResult<()>)
        requires
            old(self).wf(),
            ascending(parts_view(parts@)),
        ensures
            final(self).wf(),
            final(self).same_table(*old(self)),
            r matches Err(e) ==> S::write_fails_with(e),
            rows_written(
                *old(self),
                *final(self),
                item_ops(entry_map(parts_view(parts@))),
                epoch,
                with_value_meta,
            ) || (r is Err && nothing_written(*old(self), *final(self))),
    {
        let ghost before_write = *self;
        let ghost (all, prefix_view) = (parts_view(parts@), self.prefix());
        let kv_pairs = row_pairs(self.keyspace.prefix(), parts, with_value_meta);
        let ghost pairs = kv_pairs@;
        let ghost writes = written(pairs, Origin::Ingested(GLOBAL_STORAGE_TABLE_ID));
        proof {
            assert forall|i: int, j: int|
                #![trigger pairs[i], pairs[j]]
                0 <= i < j < pairs.len() implies pairs[i].0@ != pairs[j].0@ by {
                prefixed_keys_differ(prefix_view, all[i].0, all[j].0);
                before_irreflexive(all[i].0);
                assert(before(all[i].0, all[j].0));
            }
            lemma_writes(pairs, all, prefix_view, with_value_meta);
        }
        let mut batch = self.keyspace.state_store_mut().start_write_batch(
            GLOBAL_STORAGE_TABLE_ID,
        );
        batch.put_all(kv_pairs);
        let r = batch.ingest(epoch);
        proof {
            if forall|key: Seq<u8>| #[trigger]
                self.store().versions(key) == versions_after(
                    before_write.store().versions(key),
                    writes,
                    key,
                    epoch,
                ) {
                assert forall|key: Seq<u8>| #[trigger] self.versions_of(key) == versions_after(
                    before_write.versions_of(key),
                    row_writes(item_ops(entry_map(all)), with_value_meta),
                    key,
                    epoch,
                ) by {
                    assert(self.store().versions(prefix_view + key) == versions_after(
                        before_write.store().versions(prefix_view + key),
                        writes,
                        prefix_view + key,
                        epoch,
                    ));
                    assert(writes.dom().contains(prefix_view + key) <==> entry_map(
                        all,
                    ).dom().contains(key));
                }
                assert forall|key: Seq<u8>| !prefix_view.is_prefix_of(key) implies #[trigger]
                self.store().versions(key) == before_write.store().versions(key) by {
                    assert(!writes.dom().contains(key));
                }
            }
        }
        r
    }

    /// Opens an iterator over the stored rows, as of the epoch.
    pub fn iter(&self, epoch: HummockEpoch) -> (r: StorageResult<CellBasedTableRowIter<S>>)
        requires
            self.wf(),
        ensures
            r matches Err(e) ==> S::open_fails_with(e),
            r matches Ok(it) ==> it.types() == self.types() && rows_of_table(
                *self,
                epoch,
                items_view(it.remaining()),
            ),
    {
        let range = range_of_prefix(self.keyspace.prefix());
        match self.keyspace.state_store().iter(&range, epoch) {
            Ok(iter) => {
                proof {
                    lemma_rows_of_table(*self, range, epoch, items_view(iter.remaining()));
                }
                Ok(CellBasedTableRowIter { iter, data_types: self.data_types.clone() })
            },
            Err(e) => Err(e),
        }
    }

    pub fn prefix_bytes(&self) -> (r: &[u8])
        ensures
            r@ == self.prefix(),
    {
        self.keyspace.prefix()
    }
}

/// The row that the reply of a store denotes.
pub fn row_of_reply(data_types: &[DataType], reply: Option<Vec<u8>>) -> (r: StorageResult<
    Option<Row>,
>)
    ensures
        match decoded(
            match reply {
                Some(b) => Some(b@),
                None => None,
            },
            data_types@,
        ) {
            Ok(Some(row)) => r matches Ok(Some(out)) && out@ == row,
            Ok(None) => r matches Ok(None),
            Err(e) => r == Err::<Option<Row>, StorageError>(StorageError::CellBasedTable(e)),
        },
{
    match reply {
        None => Ok(None),
        Some(bytes) => match RowDeserializer::new(data_types).deserialize(bytes.as_slice()) {
            Ok(row) => Ok(Some(row)),
            Err(e) => Err(StorageError::CellBasedTable(e)),
        },
    }
}

/// Why the bytes of a pair that a store handed out are not those of a row.
pub open spec fn row_error(item: Item, types: Seq<DataType>) -> Option<StorageError> {
    match decode_row(item.1@, types) {
        Ok(_) => None,
        Err(e) => Some(StorageError::CellBasedTable(e)),
    }
}

/// The key and the row of a pair that a store handed out.
pub fn row_of_item(data_types: &[DataType], item: Option<Item>) -> (r: StorageResult<
    Option<(Vec<u8>, Row)>,
>)
    ensures
        match item {
            None => r matches Ok(None),
            Some(pair) => match decode_row(pair.1@, data_types@) {
                Ok((row, _)) => r matches Ok(Some(out)) && out.0 == pair.0 && out.1@ == row,
                Err(e) => r == Err::<Option<(Vec<u8>, Row)>, StorageError>(
                    StorageError::CellBasedTable(e),
                ),
            },
        },
{
    match item {
        None => Ok(None),
        Some((key, value)) => match RowDeserializer::new(data_types).deserialize(
            value.as_slice(),
        ) {
            Ok(row) => Ok(Some((key, row))),
            Err(e) => Err(StorageError::CellBasedTable(e)),
        },
    }
}

/// `pairs` are the writes that `parts` come to, under the prefix.
pub open spec fn fills(
    pairs: Seq<(Vec<u8>, StorageValue)>,
    prefix: Seq<u8>,
    parts: Seq<(Vec<u8>, MemTableItem)>,
    with_value_meta: bool,
) -> bool {
    &&& pairs.len() == parts.len()
    &&& forall|i: int|
        #![trigger pairs[i]]
        0 <= i < pairs.len() ==> {
            &&& pairs[i].0@ == prefix + parts[i].0@
            &&& pairs[i].1.value() == op_value(parts[i].1.1@)
            &&& pairs[i].1.value_meta == (if with_value_meta {
                virtual_node(parts[i].0@)
            } else {
                0
            })
        }
}

/// The writes that changes come to. The value of a row may carry the group of the row beside it.
pub fn row_pairs(
    prefix: &[u8],
    parts: Vec<(Vec<u8>, MemTableItem)>,
    with_value_meta: bool,
) -> (r: KvPairs)
    ensures
        fills(r@, prefix@, parts@, with_value_meta),
{
    let ghost all = parts@;
    let mut pairs: KvPairs = Vec::new();
    for part in iter: parts
        invariant
            iter.seq() == all,
            pairs@.len() == iter.index(),
            fills(pairs@, prefix@, all.take(iter.index()), with_value_meta),
    {
        let ghost was = pairs@;
        assert(all[was.len() as int] == part);
        let (key, item) = part;
        let value_meta: u16 = if with_value_meta {
            (XxHash64Builder.hash_bytes(key.as_slice()).value() % VIRTUAL_NODE_COUNT) as u16
        } else {
            0
        };
        let value = match &item.1 {
            RowOp::Insert(row) => StorageValue::new_put(value_meta, encode_row(row)),
            RowOp::Delete(_) => StorageValue::new_delete(value_meta),
            RowOp::Update((_, row)) => StorageValue::new_put(value_meta, encode_row(row)),
        };
        pairs.push((prefixed(prefix, key.as_slice()), value));
        assert(fills(pairs@, prefix@, all.take((was.len() + 1) as int), with_value_meta));
    }
    assert(all.take(all.len() as int) =~= all);
    pairs
}

/// `items` are all the pairs of the table that can be read in the epoch, in the order of their
/// keys.
pub open spec fn rows_of_table<S: StateStore>(
    table: CellBasedTable<S>,
    epoch: u64,
    items: Seq<(Seq<u8>, Seq<u8>)>,
) -> bool {
    &&& ascending(items)
    &&& forall|i: int|
        #![trigger items[i]]
        0 <= i < items.len() ==> table.prefix().is_prefix_of(items[i].0) && visible(
            table.store(),
            items[i].0,
            epoch,
        ) == Some(items[i].1)
    &&& forall|key: Seq<u8>|
        #![trigger visible(table.store(), key, epoch)]
        table.prefix().is_prefix_of(key) && visible(table.store(), key, epoch) is Some
            ==> crate::store::has_item(items, key)
}

proof fn lemma_rows_of_table<S: StateStore>(
    table: CellBasedTable<S>,
    range: KeyRange,
    epoch: u64,
    items: Seq<(Seq<u8>, Seq<u8>)>,
)
    requires
        forall|key: Seq<u8>| #[trigger]
            range.contains_key(key) <==> table.prefix().is_prefix_of(key),
        is_scan(table.store(), range, None, epoch, ScanDirection::Forward, items),
    ensures
        rows_of_table(table, epoch, items),
{
    assert forall|i: int|
        #![trigger items[i]]
        0 <= i < items.len() implies table.prefix().is_prefix_of(items[i].0) && visible(
        table.store(),
        items[i].0,
        epoch,
    ) == Some(items[i].1) by {
        assert(range.contains_key(items[i].0));
    }
    assert forall|key: Seq<u8>|
        #![trigger visible(table.store(), key, epoch)]
        table.prefix().is_prefix_of(key) && visible(
            table.store(),
            key,
            epoch,
        ) is Some implies crate::store::has_item(items, key) by {
        assert(range.contains_key(key));
    }
}

/// The changes were written, with the groups of their rows or without, and nothing outside the
/// table.
pub open spec fn rows_written<S: StateStore>(
    before_write: CellBasedTable<S>,
    after_write: CellBasedTable<S>,
    ops: Map<Seq<u8>, Op>,
    epoch: u64,
    with_value_meta: bool,
) -> bool {
    &&& forall|key: Seq<u8>| #[trigger]
        after_write.versions_of(key) == versions_after(
            before_write.versions_of(key),
            row_writes(ops, with_value_meta),
            key,
            epoch,
        )
    &&& forall|key: Seq<u8>|
        !before_write.prefix().is_prefix_of(key) ==> #[trigger] after_write.store().versions(key)
            == before_write.store().versions(key)
}

/// Nothing was written.
pub open spec fn nothing_written<S: StateStore>(
    before_write: CellBasedTable<S>,
    after_write: CellBasedTable<S>,
) -> bool {
    forall|key: Seq<u8>| #[trigger]
        after_write.store().versions(key) == before_write.store().versions(key)
}

/// The byte form of a row.
fn encode_row(row: &Row) -> (r: Vec<u8>)
    ensures
        r@ == row_bytes(row@),
{
    let mut buf: Vec<u8> = Vec::new();
    serialize_datums_into(&row.datums, &mut buf);
    assert(buf@ =~= row_bytes(row@));
    buf
}

proof fn lemma_writes(
    pairs: Seq<(Vec<u8>, StorageValue)>,
    parts: Seq<(Seq<u8>, MemTableItem)>,
    prefix: Seq<u8>,
    with_value_meta: bool,
)
    requires
        pairs.len() == parts.len(),
        forall|i: int|
            #![trigger pairs[i]]
            0 <= i < pairs.len() ==> pairs[i].0@ == prefix + parts[i].0 && pairs[i].1.version(
                Origin::Ingested(GLOBAL_STORAGE_TABLE_ID),
            ) == row_version(parts[i].0, parts[i].1.1@, with_value_meta),
    ensures
        ({
            let writes = written(pairs, Origin::Ingested(GLOBAL_STORAGE_TABLE_ID));
            &&& forall|key: Seq<u8>|
                #![trigger entry_map(parts).dom().contains(key)]
                writes.dom().contains(prefix + key) <==> entry_map(parts).dom().contains(key)
            &&& forall|key: Seq<u8>|
                #![trigger entry_map(parts).dom().contains(key)]
                entry_map(parts).dom().contains(key) ==> writes[prefix + key] == row_version(
                    key,
                    entry_map(parts)[key].1@,
                    with_value_meta,
                )
            &&& forall|key: Seq<u8>| #[trigger]
                writes.dom().contains(key) ==> prefix.is_prefix_of(key)
        }),
    decreases pairs.len(),
{
    let origin = Origin::Ingested(GLOBAL_STORAGE_TABLE_ID);
    let writes = written(pairs, origin);
    if pairs.len() > 0 {
        let (a, b) = (pairs.drop_last(), parts.drop_last());
        assert forall|i: int|
            #![trigger a[i]]
            0 <= i < a.len() implies a[i].0@ == prefix + b[i].0 && a[i].1.version(origin)
            == row_version(b[i].0, b[i].1.1@, with_value_meta) by {
            assert(a[i] == pairs[i]);
        }
        lemma_writes(a, b, prefix, with_value_meta);
        let n = pairs.len() - 1;
        assert(pairs[n] == pairs.last());
        assert forall|key: Seq<u8>|
            #![trigger entry_map(parts).dom().contains(key)]
            writes.dom().contains(prefix + key) <==> entry_map(parts).dom().contains(key) by {
            prefixed_keys_differ(prefix, key, parts.last().0);
            assert(entry_map(b).dom().contains(key) <==> written(a, origin).dom().contains(
                prefix + key,
            ));
        }
        assert forall|key: Seq<u8>|
            #![trigger entry_map(parts).dom().contains(key)]
            entry_map(parts).dom().contains(key) implies writes[prefix + key] == row_version(
            key,
            entry_map(parts)[key].1@,
            with_value_meta,
        ) by {
            prefixed_keys_differ(prefix, key, parts.last().0);
            if key != parts.last().0 {
                assert(entry_map(b).dom().contains(key));
            }
        }
        assert forall|key: Seq<u8>| #[trigger] writes.dom().contains(key) implies prefix.is_prefix_of(
            key,
        ) by {
            if key == pairs.last().0@ {
                assert(key.take(prefix.len() as int) =~= prefix);
            } else {
                assert(written(a, origin).dom().contains(key));
            }
        }
    } else {
        assert(entry_map(parts) =~= Map::empty());
        assert(writes =~= Map::empty());
    }
}

/// An iterator over stored rows.
pub struct CellBasedTableRowIter<S: StateStore> {
    iter: S::Iter,
    data_types: Arc<Vec<DataType>>,
}

impl<S: StateStore> CellBasedTableRowIter<S> {
    pub closed spec fn types(&self) -> Seq<DataType> {
        self.data_types@
    }

    /// The pairs that were not read yet.
    pub closed spec fn remaining(&self) -> Seq<Item> {
        self.iter.remaining()
    }

    /// Reads the next row, and its key in the store.
    ///
    /// An error is the store's, or says why the bytes of the next row cannot be read; the row is
    /// then passed.
    pub fn next_with_pk(&mut self) -> (r: StorageResult<Option<(Vec<u8>, Row)>>)
        ensures
            final(self).types() == old(self).types(),
            r matches Err(e) ==> S::Iter::next_fails_with(e) || {
                &&& old(self).remaining().len() > 0
                &&& row_error(old(self).remaining()[0], old(self).types()) == Some(e)
                &&& final(self).remaining() == old(self).remaining().drop_first()
            },
            r matches Ok(None) ==> old(self).remaining().len() == 0 && final(self).remaining()
                == old(self).remaining(),
            r matches Ok(Some(out)) ==> {
                &&& old(self).remaining().len() > 0
                &&& out.0 == old(self).remaining()[0].0
                &&& decode_row(old(self).remaining()[0].1@, old(self).types()) matches Ok((row, _))
                    && out.1@ == row
                &&& final(self).remaining() == old(self).remaining().drop_first()
            },
    {
        match self.iter.next() {
            Ok(item) => row_of_item(self.data_types.as_slice(), item),
            Err(e) => Err(e),
        }
    }
}

} // verus!
