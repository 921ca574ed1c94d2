//! Tables whose changes are buffered before they are written to a store.
use std::sync::Arc;

use vstd::prelude::*;

use crate::byte_order::{ascending, compare, entry_map, key_order_of, KeyOrder};
use crate::cell_based_table::{
    column_types, nothing_written, result_view, row_answer, row_error, rows_of_table, rows_written,
    CellBasedTable, CellBasedTableRowIter, ColumnDesc,
};
use crate::keyspace::{prefixed, Keyspace};
use crate::mem_table::{
    deleted, inserted, item_key, item_keys_ops, item_ops, items_in_order, op_at, parts_view,
    BufferedRow, MemTable, MemTableItem, Op, Row,
};
use crate::ordered::{ordered_row, serialize_pk, OrderedRowSerializer};
use crate::property::OrderType;
use crate::scalar::{clone_bytes, DataType, Scalar};
use crate::store::{
    items_view, HummockEpoch, Item, StateStore, StateStoreIter, StateTableError, StorageError,
    StorageResult,
};
use crate::value_encoding::{decode_row, ValueEncodingError};

verus! {

fn err(e: StateTableError) -> (r: StorageError)
    ensures
        r == StorageError::StateTable(e),
{
    StorageError::StateTable(e)
}

/// A table of rows in a store. Changes are buffered until they are committed, and reads see
/// the buffered changes.
#[derive(Clone)]
pub struct StateTable<S: StateStore> {
    order_types: Vec<OrderType>,
    mem_table: MemTable,
    cell_based_table: CellBasedTable<S>,
}

impl<S: StateStore> StateTable<S> {
    /// The buffered changes, by the keys of their rows.
    pub closed spec fn buffered(&self) -> Map<Seq<u8>, Op> {
        self.mem_table@
    }

    /// The table in the store.
    pub closed spec fn table(&self) -> CellBasedTable<S> {
        self.cell_based_table
    }

    /// The direction of each column of the primary key.
    pub closed spec fn orders(&self) -> Seq<OrderType> {
        self.order_types@
    }

    pub closed spec fn wf(&self) -> bool {
        &&& self.mem_table.wf()
        &&& self.cell_based_table.wf()
        &&& self.mem_table.orders() == self.order_types@
        &&& self.cell_based_table.orders() == self.order_types@
    }

    /// The row under a key, as of the epoch, with the buffered changes.
    pub open spec fn row_at(&self, key: Seq<u8>, epoch: u64) -> Result<
        Option<Seq<Option<Scalar>>>,
        ValueEncodingError,
    > {
        match op_at(self.buffered(), key) {
            Some(op) => Ok(op.row_after()),
            None => self.table().stored(key, epoch),
        }
    }

    /// `answer` is what reading the row of a primary key comes to: the row as of the epoch, or
    /// why it cannot be read. Where nothing is buffered, the store may fail instead.
    pub open spec fn reads(
        &self,
        pk: Seq<Option<Scalar>>,
        epoch: u64,
        answer: Result<Option<Seq<Option<Scalar>>>, StorageError>,
    ) -> bool {
        let key = ordered_row(pk, self.orders());
        ||| answer == row_answer(self.row_at(key, epoch))
        ||| op_at(self.buffered(), key) is None && (answer matches Err(e) && S::get_fails_with(e))
    }

    /// A table in a part of a store, with nothing buffered.
    pub fn new(
        keyspace: Keyspace<S>,
        column_descs: Vec<ColumnDesc>,
        order_types: Vec<OrderType>,
    ) -> (r: Self)
        requires
            keyspace.store_view().wf(),
        ensures
            r.wf(),
            r.buffered() == Map::<Seq<u8>, Op>::empty(),
            r.orders() == order_types@,
            r.table().types() == column_types(column_descs@),
            r.table().orders() == order_types@,
            r.table().prefix() == keyspace.prefix_view(),
            r.table().store() == keyspace.store_view(),
    {
        let mem_orders = order_types.clone();
        let cell_orders = order_types.clone();
        assert(mem_orders@ =~= order_types@);
        assert(cell_orders@ =~= order_types@);
        StateTable {
            order_types,
            mem_table: MemTable::new(OrderedRowSerializer::new(mem_orders)),
            cell_based_table: CellBasedTable::new(
                keyspace,
                column_descs,
                OrderedRowSerializer::new(cell_orders),
            ),
        }
    }

    /// The row of a primary key, as of the epoch, with the buffered changes.
    ///
    /// The store is asked only where nothing is buffered for the primary key. Of what it replies,
    /// the row is the one that [`crate::cell_based_table::row_of_reply`] makes.
    pub fn get_row(&self, pk: &Row, epoch: HummockEpoch) -> (r: StorageResult<Option<Row>>)
        requires
            self.wf(),
        ensures
            self.reads(pk@, epoch, result_view(r)),
    {
        match self.mem_table.lookup(pk) {
            BufferedRow::Known(row) => Ok(row),
            BufferedRow::AskStore(_) => self.cell_based_table.get_row(pk, epoch),
        }
    }

    /// Inserts a row.
    pub fn insert(&mut self, pk: Row, value: Row) -> (r: StorageResult<()>)
        requires
            old(self).wf(),
            pk@.len() == old(self).orders().len(),
        ensures
            final(self).wf(),
            final(self).orders() == old(self).orders(),
            final(self).table() == old(self).table(),
            ({
                let key = ordered_row(pk@, old(self).orders());
                match inserted(op_at(old(self).buffered(), key), value@) {
                    Ok(op) => r == Ok::<(), StorageError>(()) && final(self).buffered() == old(
                        self,
                    ).buffered().insert(key, op),
                    Err(e) => r == Err::<(), StorageError>(StorageError::StateTable(e))
                        && final(self).buffered() == old(self).buffered(),
                }
            }),
    {
        match self.mem_table.insert(pk, value) {
            Ok(_) => Ok(()),
            Err(e) => Err(err(e)),
        }
    }

    /// Deletes a row.
    pub fn delete(&mut self, pk: Row, old_value: Row) -> (r: StorageResult<()>)
        requires
            old(self).wf(),
            pk@.len() == old(self).orders().len(),
        ensures
            final(self).wf(),
            final(self).orders() == old(self).orders(),
            final(self).table() == old(self).table(),
            ({
                let key = ordered_row(pk@, old(self).orders());
                match deleted(op_at(old(self).buffered(), key), old_value@) {
                    Ok(Some(op)) => r == Ok::<(), StorageError>(()) && final(self).buffered()
                        == old(self).buffered().insert(key, op),
                    Ok(None) => r == Ok::<(), StorageError>(()) && final(self).buffered() == old(
                        self,
                    ).buffered().remove(key),
                    Err(e) => r == Err::<(), StorageError>(StorageError::StateTable(e))
                        && final(self).buffered() == old(self).buffered(),
                }
            }),
    {
        match self.mem_table.delete(pk, old_value) {
            Ok(_) => Ok(()),
            Err(e) => Err(err(e)),
        }
    }

    /// Takes the buffered changes out, in the order of their keys.
    fn take_mem_table(&mut self) -> (r: Vec<(Vec<u8>, MemTableItem)>)
        requires
            old(self).wf(),
        ensures
            final(self).wf(),
            final(self).orders() == old(self).orders(),
            final(self).table() == old(self).table(),
            final(self).buffered() == Map::<Seq<u8>, Op>::empty(),
            ascending(parts_view(r@)),
            item_ops(entry_map(parts_view(r@))) == old(self).buffered(),
    {
        let orders = self.order_types.clone();
        assert(orders@ =~= self.order_types@);
        let mut mem_table = MemTable::new(OrderedRowSerializer::new(orders));
        std::mem::swap(&mut mem_table, &mut self.mem_table);
        mem_table.into_parts()
    }

    /// Writes the buffered changes to the store. Whether that succeeds or not, nothing is
    /// buffered any more.
    pub fn commit(&mut self, new_epoch: HummockEpoch) -> (r: StorageResult<()>)
        requires
            old(self).wf(),
        ensures
            final(self).wf(),
            final(self).orders() == old(self).orders(),
            final(self).buffered() == Map::<Seq<u8>, Op>::empty(),
            final(self).table().same_table(old(self).table()),
            r matches Err(e) ==> S::write_fails_with(e),
            rows_written(
                old(self).table(),
                final(self).table(),
                old(self).buffered(),
                new_epoch,
                false,
            ) || (r is Err && nothing_written(old(self).table(), final(self).table())),
    {
        let mem_table = self.take_mem_table();
        self.cell_based_table.batch_write_rows(mem_table, new_epoch)
    }

    /// As [`StateTable::commit`], and each value carries the group of its row beside it.
    pub fn commit_with_value_meta(&mut self, new_epoch: HummockEpoch) -> (r: StorageResult<()>)
        requires
            old(self).wf(),
        ensures
            final(self).wf(),
            final(self).orders() == old(self).orders(),
            final(self).buffered() == Map::<Seq<u8>, Op>::empty(),
            final(self).table().same_table(old(self).table()),
            r matches Err(e) ==> S::write_fails_with(e),
            rows_written(
                old(self).table(),
                final(self).table(),
                old(self).buffered(),
                new_epoch,
                true,
            ) || (r is Err && nothing_written(old(self).table(), final(self).table())),
    {
        let mem_table = self.take_mem_table();
        self.cell_based_table.batch_write_rows_with_value_meta(mem_table, new_epoch)
    }

    /// Opens an iterator over the rows of the store, as of the epoch, and the buffered changes.
    pub fn iter(&self, epoch: HummockEpoch) -> (r: StorageResult<StateTableRowIter<S>>)
        requires
            self.wf(),
        ensures
            r matches Err(e) ==> S::open_fails_with(e),
            r matches Ok(it) ==> {
                &&& it.changes().wf()
                &&& it.changes().orders() == self.orders()
                &&& it.changes().prefix_view() == self.table().prefix()
                &&& it.changes().place() == 0
                &&& item_keys_ops(it.changes().items(), self.orders()) == self.buffered()
                &&& it.types() == self.table().types()
                &&& rows_of_table(self.table(), epoch, items_view(it.remaining()))
            },
    {
        let mem_table_vec = self.mem_table.to_items();
        let orders = self.order_types.clone();
        assert(orders@ =~= self.order_types@);
        match self.cell_based_table.iter(epoch) {
            Ok(cell_based_row_iter) => Ok(
                StateTableRowIter::new(
                    cell_based_row_iter,
                    Arc::new(mem_table_vec),
                    orders,
                    clone_bytes(self.cell_based_table.prefix_bytes()),
                ),
            ),
            Err(e) => Err(e),
        }
    }
}

/// What comes of one step: whether the buffered change is used up, and the row.
///
/// A stored row in front of the buffered change comes out as it is. In all other cases the
/// change takes its place: the row after the change comes out, or nothing where the change is
/// a deletion.
pub open spec fn merged(
    stored: Option<(Seq<u8>, Seq<Option<Scalar>>)>,
    change: Option<(Seq<u8>, Op)>,
) -> (bool, Option<Seq<Option<Scalar>>>) {
    match (stored, change) {
        (None, None) => (false, None),
        (Some((_, row)), None) => (false, Some(row)),
        (None, Some((_, op))) => (true, op.row_after()),
        (Some((key, row)), Some((change_key, op))) => if key_order_of(key, change_key)
            == KeyOrder::Less {
            (false, Some(row))
        } else {
            (true, op.row_after())
        },
    }
}

/// A row that may not be there.
pub open spec fn row_view(row: Option<Row>) -> Option<Seq<Option<Scalar>>> {
    match row {
        Some(r) => Some(r@),
        None => None,
    }
}

/// A stored row and its key.
pub open spec fn stored_view(item: Option<(Vec<u8>, Row)>) -> Option<
    (Seq<u8>, Seq<Option<Scalar>>),
> {
    match item {
        Some((key, row)) => Some((key@, row@)),
        None => None,
    }
}

/// Merges rows that come in the order of their keys with changes.
pub struct RowMerger {
    mem_table_vec: Arc<Vec<MemTableItem>>,
    mem_table_idx: usize,
    pk_serializer: OrderedRowSerializer,
    prefix: Vec<u8>,
}

impl RowMerger {
    /// The changes.
    pub closed spec fn items(&self) -> Seq<MemTableItem> {
        self.mem_table_vec@
    }

    /// The number of changes that are used up.
    pub closed spec fn place(&self) -> nat {
        self.mem_table_idx as nat
    }

    pub closed spec fn orders(&self) -> Seq<OrderType> {
        self.pk_serializer.orders()
    }

    pub closed spec fn prefix_view(&self) -> Seq<u8> {
        self.prefix@
    }

    pub open spec fn wf(&self) -> bool {
        self.place() <= self.items().len() && items_in_order(self.items(), self.orders())
    }

    /// The next change, with the key of its row in the store.
    pub open spec fn next_change(&self) -> Option<(Seq<u8>, Op)> {
        if self.place() < self.items().len() {
            let item = self.items()[self.place() as int];
            Some((self.prefix_view() + item_key(item, self.orders()), item.1@))
        } else {
            None
        }
    }

    /// The same changes, in the same table.
    pub open spec fn same_changes(&self, other: Self) -> bool {
        &&& self.items() == other.items()
        &&& self.orders() == other.orders()
        &&& self.prefix_view() == other.prefix_view()
    }

    pub fn new(
        mem_table_vec: Arc<Vec<MemTableItem>>,
        order_types: Vec<OrderType>,
        prefix: Vec<u8>,
    ) -> (r: Self)
        requires
            items_in_order(mem_table_vec@, order_types@),
        ensures
            r.wf(),
            r.items() == mem_table_vec@,
            r.place() == 0,
            r.orders() == order_types@,
            r.prefix_view() == prefix@,
    {
        RowMerger {
            mem_table_vec,
            mem_table_idx: 0,
            pk_serializer: OrderedRowSerializer::new(order_types),
            prefix,
        }
    }

    /// The next change.
    pub fn mem_table_current_item(&self) -> (r: Option<&MemTableItem>)
        requires
            self.wf(),
        ensures
            match r {
                Some(item) => self.place() < self.items().len() && *item
                    == self.items()[self.place() as int],
                None => self.place() == self.items().len(),
            },
    {
        if self.mem_table_idx < self.mem_table_vec.len() {
            Some(&self.mem_table_vec[self.mem_table_idx])
        } else {
            None
        }
    }

    /// One step, given the next row of the store and its key.
    pub fn step(&mut self, cell_based_item: Option<(Vec<u8>, Row)>) -> (r: StorageResult<
        Option<Row>,
    >)
        requires
            old(self).wf(),
        ensures
            final(self).wf(),
            final(self).same_changes(*old(self)),
            r matches Ok(row) && {
                let (used, out) = merged(stored_view(cell_based_item), old(self).next_change());
                &&& row_view(row) == out
                &&& final(self).place() == old(self).place() + (if used {
                    1int
                } else {
                    0
                })
            },
    {
        assert(self.mem_table_vec.len() == self.items().len());
        let mem_table_cur_item: Option<&MemTableItem> = self.mem_table_current_item();
        match (cell_based_item, mem_table_cur_item) {
            (None, None) => Ok(None),
            (Some((_, row)), None) => Ok(Some(row)),
            (None, Some((_, row_op))) => {
                let row = row_op.new_row();
                self.mem_table_idx = self.mem_table_idx + 1;
                Ok(row)
            },
            (Some((cell_based_pk, cell_based_row)), Some((mem_table_pk, mem_table_row_op))) => {
                let mem_table_pk_bytes = serialize_pk(mem_table_pk, &self.pk_serializer);
                let mem_table_pk_with_prefix = prefixed(
                    self.prefix.as_slice(),
                    mem_table_pk_bytes.as_slice(),
                );
                match compare(cell_based_pk.as_slice(), mem_table_pk_with_prefix.as_slice()) {
                    KeyOrder::Less => Ok(Some(cell_based_row)),
                    KeyOrder::Greater | KeyOrder::Equal => {
                        let row = mem_table_row_op.new_row();
                        self.mem_table_idx = self.mem_table_idx + 1;
                        Ok(row)
                    },
                }
            },
        }
    }
}

/// Merges the rows of a store with buffered changes.
pub struct StateTableRowIter<S: StateStore> {
    cell_based_row_iter: CellBasedTableRowIter<S>,
    merger: RowMerger,
}

impl<S: StateStore> StateTableRowIter<S> {
    /// The buffered changes, and how many of them are used up.
    pub closed spec fn changes(&self) -> RowMerger {
        self.merger
    }

    pub closed spec fn types(&self) -> Seq<DataType> {
        self.cell_based_row_iter.types()
    }

    /// The pairs of the store that were not read yet.
    pub closed spec fn remaining(&self) -> Seq<Item> {
        self.cell_based_row_iter.remaining()
    }

    fn new(
        cell_based_row_iter: CellBasedTableRowIter<S>,
        mem_table_vec: Arc<Vec<MemTableItem>>,
        order_types: Vec<OrderType>,
        prefix: Vec<u8>,
    ) -> (r: Self)
        requires
            items_in_order(mem_table_vec@, order_types@),
        ensures
            r.changes().wf(),
            r.changes().items() == mem_table_vec@,
            r.changes().place() == 0,
            r.changes().orders() == order_types@,
            r.changes().prefix_view() == prefix@,
            r.types() == cell_based_row_iter.types(),
            r.remaining() == cell_based_row_iter.remaining(),
    {
        StateTableRowIter {
            cell_based_row_iter,
            merger: RowMerger::new(mem_table_vec, order_types, prefix),
        }
    }

    /// The next change.
    pub fn mem_table_current_item(&self) -> (r: Option<&MemTableItem>)
        requires
            self.changes().wf(),
        ensures
            match r {
                Some(item) => self.changes().place() < self.changes().items().len() && *item
                    == self.changes().items()[self.changes().place() as int],
                None => self.changes().place() == self.changes().items().len(),
            },
    {
        self.merger.mem_table_current_item()
    }

    /// Reads the next row of the store, and merges it with the next change.
    ///
    /// What the store hands out is up to the store. What comes of it is what
    /// [`RowMerger::step`] says. An error is the store's, or says why the bytes of the next row
    /// cannot be read; the row is then passed, and the change is not.
    pub fn next(&mut self) -> (r: StorageResult<Option<Row>>)
        requires
            old(self).changes().wf(),
        ensures
            final(self).changes().wf(),
            final(self).changes().same_changes(old(self).changes()),
            final(self).types() == old(self).types(),
            r is Err ==> final(self).changes().place() == old(self).changes().place(),
            r matches Err(e) ==> S::Iter::next_fails_with(e) || {
                &&& old(self).remaining().len() > 0
                &&& row_error(old(self).remaining()[0], old(self).types()) == Some(e)
                &&& final(self).remaining() == old(self).remaining().drop_first()
            },
            r matches Ok(row) ==> {
                let stored = if old(self).remaining().len() == 0 {
                    None
                } else {
                    let pair = old(self).remaining()[0];
                    Some((pair.0@, (decode_row(pair.1@, old(self).types())->Ok_0).0))
                };
                let (used, out) = merged(stored, old(self).changes().next_change());
                &&& old(self).remaining().len() > 0 ==> decode_row(
                    old(self).remaining()[0].1@,
                    old(self).types(),
                ) is Ok
                &&& row_view(row) == out
                &&& final(self).changes().place() == old(self).changes().place() + (if used {
                    1int
                } else {
                    0
                })
                &&& final(self).remaining() == (if old(self).remaining().len() == 0 {
                    old(self).remaining()
                } else {
                    old(self).remaining().drop_first()
                })
            },
    {
        let cell_based_item = match self.cell_based_row_iter.next_with_pk() {
            Ok(item) => item,
            Err(e) => {
                return Err(e);
            },
        };
        self.merger.step(cell_based_item)
    }
}

} // verus!
