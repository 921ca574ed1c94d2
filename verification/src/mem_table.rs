//! Changes to rows that were not written to the store yet.
use vstd::prelude::*;

use crate::byte_order::{ascending, before, entry_map, lemma_entry_map, OrderedMap};
use crate::ordered::{ordered_row, serialize_pk, OrderedRowSerializer};
use crate::property::OrderType;
use crate::scalar::{OwnedRow, Scalar};
use crate::store::StateTableError;

verus! {

/// A row of a table.
pub type Row = OwnedRow;

/// A change to the row of a primary key.
#[derive(Debug)]
pub enum RowOp {
    Insert(Row),
    /// The row that is deleted.
    Delete(Row),
    /// The old row and the new one.
    Update((Row, Row)),
}

/// What a [`RowOp`] stands for.
pub enum Op {
    Insert(Seq<Option<Scalar>>),
    Delete(Seq<Option<Scalar>>),
    Update(Seq<Option<Scalar>>, Seq<Option<Scalar>>),
}

impl Op {
    /// The row that is there after the change, if there is one.
    pub open spec fn row_after(self) -> Option<Seq<Option<Scalar>>> {
        match self {
            Op::Insert(row) => Some(row),
            Op::Delete(_) => None,
            Op::Update(_, row) => Some(row),
        }
    }
}

impl View for RowOp {
    type V = Op;

    open spec fn view(&self) -> Op {
        match self {
            RowOp::Insert(row) => Op::Insert(row@),
            RowOp::Delete(row) => Op::Delete(row@),
            RowOp::Update((old_row, row)) => Op::Update(old_row@, row@),
        }
    }
}

impl Clone for RowOp {
    fn clone(&self) -> (r: Self)
        ensures
            r@ == self@,
    {
        match self {
            RowOp::Insert(row) => RowOp::Insert(row.clone()),
            RowOp::Delete(row) => RowOp::Delete(row.clone()),
            RowOp::Update((old_row, row)) => RowOp::Update((old_row.clone(), row.clone())),
        }
    }
}

impl RowOp {
    /// The row that is there after the change, if there is one.
    pub fn new_row(&self) -> (r: Option<Row>)
        ensures
            match self@.row_after() {
                Some(row) => r matches Some(out) && out@ == row,
                None => r is None,
            },
    {
        match self {
            RowOp::Insert(row) => Some(row.clone()),
            RowOp::Delete(_) => None,
            RowOp::Update((_, row)) => Some(row.clone()),
        }
    }
}

/// A primary key, and the change to its row.
pub type MemTableItem = (Row, RowOp);

/// The change that inserting a row comes to, after an earlier change. A row that was deleted
/// and is inserted again is updated.
pub open spec fn inserted(op: Option<Op>, row: Seq<Option<Scalar>>) -> Result<Op, StateTableError> {
    match op {
        None => Ok(Op::Insert(row)),
        Some(Op::Delete(old_row)) => Ok(Op::Update(old_row, row)),
        Some(_) => Err(StateTableError::DoubleInsert),
    }
}

/// The change that deleting a row comes to, after an earlier change. A row that was inserted
/// and is deleted again is not changed.
pub open spec fn deleted(
    op: Option<Op>,
    old_row: Seq<Option<Scalar>>,
) -> Result<Option<Op>, StateTableError> {
    match op {
        None => Ok(Some(Op::Delete(old_row))),
        Some(Op::Insert(_)) => Ok(None),
        Some(Op::Update(first_row, _)) => Ok(Some(Op::Delete(first_row))),
        Some(Op::Delete(_)) => Err(StateTableError::DoubleDelete),
    }
}

/// The changes of items by their keys.
pub open spec fn item_ops(items: Map<Seq<u8>, MemTableItem>) -> Map<Seq<u8>, Op> {
    items.map_values(|item: MemTableItem| item.1@)
}

/// The change under a key, if there is one.
pub open spec fn op_at(ops: Map<Seq<u8>, Op>, key: Seq<u8>) -> Option<Op> {
    if ops.dom().contains(key) {
        Some(ops[key])
    } else {
        None
    }
}

/// What looking a row up among the changes comes to.
#[derive(Debug)]
pub enum BufferedRow {
    /// There is a change: the row is there after it, or it is not.
    Known(Option<Row>),
    /// There is no change. The store is to be asked for the key of the row.
    AskStore(Vec<u8>),
}

/// Changes that are kept in memory, in the order of the keys of their rows.
#[derive(Clone, Debug)]
pub struct MemTable {
    buffer: OrderedMap<MemTableItem>,
    serializer: OrderedRowSerializer,
}

impl View for MemTable {
    type V = Map<Seq<u8>, Op>;

    closed spec fn view(&self) -> Map<Seq<u8>, Op> {
        item_ops(self.buffer@)
    }
}

impl MemTable {
    /// The direction of each column of the primary key.
    pub closed spec fn orders(&self) -> Seq<OrderType> {
        self.serializer.orders()
    }

    /// The buffer is in order, and each item is under the key of its row.
    pub closed spec fn wf(&self) -> bool {
        &&& self.buffer.wf()
        &&& forall|key: Seq<u8>| #[trigger]
            self.buffer@.dom().contains(key) ==> ordered_row(
                self.buffer@[key].0@,
                self.orders(),
            ) == key
    }

    /// The items, in the order of their keys.
    pub closed spec fn items_view(&self) -> Seq<(Seq<u8>, MemTableItem)> {
        self.buffer.entries_view()
    }

    pub fn new(serializer: OrderedRowSerializer) -> (r: Self)
        ensures
            r.wf(),
            r.orders() == serializer.orders(),
            r@ == Map::<Seq<u8>, Op>::empty(),
    {
        let r = MemTable { buffer: OrderedMap::new(), serializer };
        assert(r@ =~= Map::<Seq<u8>, Op>::empty());
        r
    }

    /// The change to the row of a primary key.
    pub fn get_row(&self, pk: &Row) -> (r: Option<&RowOp>)
        requires
            self.wf(),
        ensures
            match op_at(self@, ordered_row(pk@, self.orders())) {
                Some(op) => r matches Some(row_op) && row_op@ == op,
                None => r is None,
            },
    {
        let key = serialize_pk(pk, &self.serializer);
        match self.buffer.get(key.as_slice()) {
            Some(item) => Some(&item.1),
            None => None,
        }
    }

    /// The row of a primary key, as far as the changes tell.
    pub fn lookup(&self, pk: &Row) -> (r: BufferedRow)
        requires
            self.wf(),
        ensures
            match op_at(self@, ordered_row(pk@, self.orders())) {
                None => r matches BufferedRow::AskStore(key) && key@ == ordered_row(
                    pk@,
                    self.orders(),
                ),
                Some(op) => match op.row_after() {
                    Some(row) => r matches BufferedRow::Known(Some(out)) && out@ == row,
                    None => r matches BufferedRow::Known(None),
                },
            },
    {
        match self.get_row(pk) {
            Some(row_op) => match row_op {
                RowOp::Insert(row) => BufferedRow::Known(Some(row.clone())),
                RowOp::Delete(_) => BufferedRow::Known(None),
                RowOp::Update((_, new_row)) => BufferedRow::Known(Some(new_row.clone())),
            },
            None => BufferedRow::AskStore(serialize_pk(pk, &self.serializer)),
        }
    }

    /// Puts a change under a key.
    fn put(&mut self, key: Vec<u8>, pk: Row, op: RowOp)
        requires
            old(self).wf(),
            ordered_row(pk@, old(self).orders()) == key@,
        ensures
            final(self).wf(),
            final(self).orders() == old(self).orders(),
            final(self)@ == old(self)@.insert(key@, op@),
    {
        let ghost (k, o) = (key@, op@);
        self.buffer.insert(key, (pk, op));
        assert(self@ =~= old(self)@.insert(k, o));
    }

    /// Takes the change under a key out.
    fn take(&mut self, key: &[u8]) -> (r: Option<MemTableItem>)
        requires
            old(self).wf(),
        ensures
            final(self).wf(),
            final(self).orders() == old(self).orders(),
            final(self)@ == old(self)@.remove(key@),
            match r {
                Some(item) => op_at(old(self)@, key@) == Some(item.1@) && ordered_row(
                    item.0@,
                    old(self).orders(),
                ) == key@,
                None => op_at(old(self)@, key@) is None,
            },
    {
        let r = self.buffer.remove(key);
        assert(self@ =~= old(self)@.remove(key@));
        r
    }

    /// Inserts a row.
    pub fn insert(&mut self, pk: Row, value: Row) -> (r: Result<(), StateTableError>)
        requires
            old(self).wf(),
        ensures
            final(self).wf(),
            final(self).orders() == old(self).orders(),
            ({
                let key = ordered_row(pk@, old(self).orders());
                match inserted(op_at(old(self)@, key), value@) {
                    Ok(op) => r == Ok::<(), StateTableError>(()) && final(self)@ == old(
                        self,
                    )@.insert(key, op),
                    Err(e) => r == Err::<(), StateTableError>(e) && final(self)@ == old(self)@,
                }
            }),
    {
        let key = serialize_pk(&pk, &self.serializer);
        let ghost k = key@;
        match self.take(key.as_slice()) {
            None => {
                self.put(key, pk, RowOp::Insert(value));
                assert(self@ =~= old(self)@.insert(k, Op::Insert(value@)));
                Ok(())
            },
            Some((old_pk, RowOp::Delete(old_row))) => {
                let ghost was = old_row@;
                self.put(key, old_pk, RowOp::Update((old_row, value)));
                assert(self@ =~= old(self)@.insert(k, Op::Update(was, value@)));
                Ok(())
            },
            Some((old_pk, op)) => {
                self.put(key, old_pk, op);
                assert(self@ =~= old(self)@);
                Err(StateTableError::DoubleInsert)
            },
        }
    }

    /// Deletes a row.
    pub fn delete(&mut self, pk: Row, old_value: Row) -> (r: Result<(), StateTableError>)
        requires
            old(self).wf(),
        ensures
            final(self).wf(),
            final(self).orders() == old(self).orders(),
            ({
                let key = ordered_row(pk@, old(self).orders());
                match deleted(op_at(old(self)@, key), old_value@) {
                    Ok(Some(op)) => r == Ok::<(), StateTableError>(()) && final(self)@ == old(
                        self,
                    )@.insert(key, op),
                    Ok(None) => r == Ok::<(), StateTableError>(()) && final(self)@ == old(
                        self,
                    )@.remove(key),
                    Err(e) => r == Err::<(), StateTableError>(e) && final(self)@ == old(self)@,
                }
            }),
    {
        let key = serialize_pk(&pk, &self.serializer);
        let ghost k = key@;
        match self.take(key.as_slice()) {
            None => {
                self.put(key, pk, RowOp::Delete(old_value));
                assert(self@ =~= old(self)@.insert(k, Op::Delete(old_value@)));
                Ok(())
            },
            Some((_, RowOp::Insert(_))) => Ok(()),
            Some((old_pk, RowOp::Update((first_row, _)))) => {
                let ghost was = first_row@;
                self.put(key, old_pk, RowOp::Delete(first_row));
                assert(self@ =~= old(self)@.insert(k, Op::Delete(was)));
                Ok(())
            },
            Some((old_pk, RowOp::Delete(old_row))) => {
                self.put(key, old_pk, RowOp::Delete(old_row));
                assert(self@ =~= old(self)@);
                Err(StateTableError::DoubleDelete)
            },
        }
    }

    /// The keys and their changes, in the order of the keys.
    pub fn into_parts(self) -> (r: Vec<(Vec<u8>, MemTableItem)>)
        requires
            self.wf(),
        ensures
            ascending(parts_view(r@)),
            item_ops(entry_map(parts_view(r@))) == self@,
    {
        self.buffer.into_entries()
    }

    /// The primary keys and their changes, in the order of the keys.
    pub fn to_items(&self) -> (r: Vec<MemTableItem>)
        requires
            self.wf(),
        ensures
            items_in_order(r@, self.orders()),
            item_keys_ops(r@, self.orders()) == self@,
    {
        let mut items: Vec<MemTableItem> = Vec::new();
        let n: usize = self.buffer.len();
        let ghost (es, orders) = (self.buffer.entries_view(), self.orders());
        let mut i: usize = 0;
        while i < n
            invariant
                i <= n,
                n == es.len(),
                es == self.buffer.entries_view(),
                orders == self.orders(),
                self.wf(),
                items@.len() == i,
                forall|j: int|
                    #![trigger items@[j]]
                    0 <= j < i ==> {
                        &&& item_key(items@[j], orders) == es[j].0
                        &&& items@[j].1@ == es[j].1.1@
                    },
            decreases n - i,
        {
            let item = self.buffer.value_at(i);
            proof {
                lemma_entry_map(es, es[i as int].0);
                assert(self.buffer@.dom().contains(es[i as int].0));
            }
            items.push((item.0.clone(), item.1.clone()));
            i = i + 1;
        }
        proof {
            let out = items@;
            assert forall|a: int, b: int|
                #![trigger out[a], out[b]]
                0 <= a < b < out.len() implies before(
                item_key(out[a], orders),
                item_key(out[b], orders),
            ) by {
                assert(before(es[a].0, es[b].0));
            }
            lemma_item_ops(out, orders, es);
        }
        items
    }
}

/// What keys and changes stand for.
pub open spec fn parts_view(
    parts: Seq<(Vec<u8>, MemTableItem)>,
) -> Seq<(Seq<u8>, MemTableItem)> {
    parts.map_values(|e: (Vec<u8>, MemTableItem)| (e.0@, e.1))
}

/// The key of an item.
pub open spec fn item_key(item: MemTableItem, orders: Seq<OrderType>) -> Seq<u8> {
    ordered_row(item.0@, orders)
}

/// The items come in the order of their keys.
pub open spec fn items_in_order(items: Seq<MemTableItem>, orders: Seq<OrderType>) -> bool {
    forall|i: int, j: int|
        #![trigger items[i], items[j]]
        0 <= i < j < items.len() ==> before(
            item_key(items[i], orders),
            item_key(items[j], orders),
        )
}

/// The changes of items, by their keys.
pub open spec fn item_keys_ops(
    items: Seq<MemTableItem>,
    orders: Seq<OrderType>,
) -> Map<Seq<u8>, Op>
    decreases items.len(),
{
    if items.len() == 0 {
        Map::empty()
    } else {
        item_keys_ops(items.drop_last(), orders).insert(
            item_key(items.last(), orders),
            items.last().1@,
        )
    }
}

proof fn lemma_item_ops(
    items: Seq<MemTableItem>,
    orders: Seq<OrderType>,
    es: Seq<(Seq<u8>, MemTableItem)>,
)
    requires
        items.len() == es.len(),
        forall|j: int|
            #![trigger items[j]]
            0 <= j < items.len() ==> item_key(items[j], orders) == es[j].0 && items[j].1@ == es[j].1.1@,
    ensures
        item_keys_ops(items, orders) == item_ops(entry_map(es)),
    decreases items.len(),
{
    if items.len() == 0 {
        assert(item_keys_ops(items, orders) =~= item_ops(entry_map(es)));
    } else {
        let (a, b) = (items.drop_last(), es.drop_last());
        assert forall|j: int|
            #![trigger a[j]]
            0 <= j < a.len() implies item_key(a[j], orders) == b[j].0 && a[j].1@ == b[j].1.1@ by {
            assert(a[j] == items[j]);
        }
        lemma_item_ops(a, orders, b);
        assert(items[items.len() - 1] == items.last());
        assert(item_keys_ops(items, orders) =~= item_ops(entry_map(es)));
    }
}

} // verus!
