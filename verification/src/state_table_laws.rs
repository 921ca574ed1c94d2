//! What holds of tables with buffered changes, whatever was done to them.
use vstd::prelude::*;

use crate::byte_order::{before, before_irreflexive};
use crate::cell_based_table::{
    nothing_written, op_value, row_writes, rows_of_table, rows_written,
};
use crate::hash_code::xxhash64;
use crate::mem_table::{deleted, inserted, op_at, Op};
use crate::ordered::ordered_row;
use crate::ordered_laws::keys_equal_iff_rows_equal;
use crate::scalar::{canonical_row, row_typed, valid_row, DataType, Scalar};
use crate::state_table::{merged, RowMerger, StateTable, StateTableRowIter};
use crate::store::{
    newest, older_epochs_do_not_see, versions_after, visible, written_is_newest, Origin, StateStore, StateTableError,
    StorageError,
};
use crate::value_encoding::{datum_row_round_trip, decode_row, row_bytes, ValueEncodingError};

verus! {

/// A row that was read.
pub open spec fn found(row: Option<Seq<Option<Scalar>>>) -> Result<
    Option<Seq<Option<Scalar>>>,
    ValueEncodingError,
> {
    Ok(row)
}

/// The row is what its byte form is read as, by these column types.
pub open spec fn row_survives(row: Seq<Option<Scalar>>, tys: Seq<DataType>) -> bool {
    decode_row(row_bytes(row), tys) matches Ok((back, _)) && back == row
}

/// A row that the column types are the types of is what its byte form is read as.
pub proof fn typed_rows_survive(row: Seq<Option<Scalar>>, tys: Seq<DataType>)
    requires
        row_typed(row, tys),
    ensures
        row_survives(row, tys),
{
    datum_row_round_trip(row, tys, Seq::empty());
    assert(row_bytes(row) + Seq::<u8>::empty() =~= row_bytes(row));
}

/// What is buffered for a key, if anything, leaves no row or one that can be read back from its
/// byte form.
pub open spec fn change_survives<S: StateStore>(table: StateTable<S>, key: Seq<u8>) -> bool {
    op_at(table.buffered(), key) matches Some(op) ==> (op.row_after() matches Some(row)
        ==> row_survives(row, table.table().types()))
}

/// The store failed.
pub open spec fn store_failed<S: StateStore>(
    answer: Result<Option<Seq<Option<Scalar>>>, StorageError>,
) -> bool {
    answer matches Err(e) && S::get_fails_with(e)
}

/// A row that was inserted is read back, in any epoch and whatever the store holds.
pub proof fn inserted_row_is_read<S: StateStore>(
    before_insert: StateTable<S>,
    after_insert: StateTable<S>,
    pk: Seq<Option<Scalar>>,
    row: Seq<Option<Scalar>>,
    epoch: u64,
    answer: Result<Option<Seq<Option<Scalar>>>, StorageError>,
)
    requires
        ({
            let key = ordered_row(pk, after_insert.orders());
            inserted(op_at(before_insert.buffered(), key), row) matches Ok(op)
                && after_insert.buffered() == before_insert.buffered().insert(key, op)
        }),
        after_insert.reads(pk, epoch, answer),
    ensures
        after_insert.row_at(ordered_row(pk, after_insert.orders()), epoch) == found(Some(row)),
        answer == Ok::<_, StorageError>(Some(row)),
{
}

/// A row that was deleted is not read any more, in any epoch. Where the buffer only undoes an
/// insert, that is so if the store did not have the row; the store is asked then, and may fail.
pub proof fn deleted_row_is_gone<S: StateStore>(
    before_delete: StateTable<S>,
    after_delete: StateTable<S>,
    pk: Seq<Option<Scalar>>,
    old_row: Seq<Option<Scalar>>,
    epoch: u64,
    answer: Result<Option<Seq<Option<Scalar>>>, StorageError>,
)
    requires
        after_delete.table() == before_delete.table(),
        ({
            let key = ordered_row(pk, after_delete.orders());
            &&& match deleted(op_at(before_delete.buffered(), key), old_row) {
                Ok(Some(op)) => after_delete.buffered() == before_delete.buffered().insert(key, op),
                Ok(None) => after_delete.buffered() == before_delete.buffered().remove(key),
                Err(_) => false,
            }
            &&& op_at(before_delete.buffered(), key) matches Some(Op::Insert(_))
                ==> before_delete.table().stored(key, epoch) == found(None)
        }),
        after_delete.reads(pk, epoch, answer),
    ensures
        after_delete.row_at(ordered_row(pk, after_delete.orders()), epoch) == found(None),
        answer == Ok::<_, StorageError>(None::<Seq<Option<Scalar>>>) || store_failed::<S>(answer),
        !(op_at(before_delete.buffered(), ordered_row(pk, after_delete.orders())) matches Some(
            Op::Insert(_),
        )) ==> answer is Ok,
{
}

/// An insert followed by a delete of the same row leaves everything as it was.
pub proof fn delete_undoes_insert(
    ops: Map<Seq<u8>, Op>,
    key: Seq<u8>,
    row: Seq<Option<Scalar>>,
)
    requires
        !ops.dom().contains(key),
    ensures
        inserted(op_at(ops, key), row) matches Ok(op) && deleted(Some(op), row) == Ok::<
            Option<Op>,
            StateTableError,
        >(None) && ops.insert(key, op).remove(key) == ops,
{
    let op = Op::Insert(row);
    assert(ops.insert(key, op).remove(key) =~= ops);
}

/// A row that was deleted can be inserted again.
pub proof fn deleted_row_can_be_inserted(
    op: Option<Op>,
    old_row: Seq<Option<Scalar>>,
    row: Seq<Option<Scalar>>,
)
    requires
        deleted(op, old_row) is Ok,
    ensures
        inserted(deleted(op, old_row)->Ok_0, row) is Ok,
{
}

/// A delete followed by an insert with the same primary key is an update.
pub proof fn insert_after_delete_updates(
    old_row: Seq<Option<Scalar>>,
    row: Seq<Option<Scalar>>,
)
    ensures
        deleted(None, old_row) matches Ok(Some(op)) && inserted(Some(op), row) == Ok::<
            Op,
            StateTableError,
        >(Op::Update(old_row, row)),
{
}

/// Changing the row of one primary key leaves what is read of all others.
pub proof fn other_rows_stay<S: StateStore>(
    before_change: StateTable<S>,
    after_change: StateTable<S>,
    pk: Seq<Option<Scalar>>,
    other_pk: Seq<Option<Scalar>>,
    epoch: u64,
    answer: Result<Option<Seq<Option<Scalar>>>, StorageError>,
)
    requires
        valid_row(pk),
        valid_row(other_pk),
        canonical_row(pk) != canonical_row(other_pk),
        after_change.table() == before_change.table(),
        after_change.orders() == before_change.orders(),
        ({
            let key = ordered_row(pk, before_change.orders());
            ||| after_change.buffered() == before_change.buffered().remove(key)
            ||| exists|op: Op|
                after_change.buffered() == #[trigger] before_change.buffered().insert(key, op)
        }),
    ensures
        ({
            let other_key = ordered_row(other_pk, before_change.orders());
            after_change.row_at(other_key, epoch) == before_change.row_at(other_key, epoch)
        }),
        after_change.reads(other_pk, epoch, answer) <==> before_change.reads(
            other_pk,
            epoch,
            answer,
        ),
{
    keys_equal_iff_rows_equal(pk, other_pk, before_change.orders());
}

/// Committing changes what is read of a primary key in the epoch of the commit only where the
/// buffered row is not what its byte form is read as, by the column types of the table.
pub proof fn commit_keeps_rows_that_survive<S: StateStore>(
    before_commit: StateTable<S>,
    after_commit: StateTable<S>,
    epoch: u64,
    key: Seq<u8>,
    with_value_meta: bool,
)
    requires
        after_commit.buffered() == Map::<Seq<u8>, Op>::empty(),
        after_commit.table().same_table(before_commit.table()),
        rows_written(
            before_commit.table(),
            after_commit.table(),
            before_commit.buffered(),
            epoch,
            with_value_meta,
        ),
    ensures
        after_commit.row_at(key, epoch) == before_commit.row_at(key, epoch) <==> change_survives(
            before_commit,
            key,
        ),
{
    let writes = row_writes(before_commit.buffered(), with_value_meta);
    let versions = before_commit.table().versions_of(key);
    assert(after_commit.table().versions_of(key) == versions_after(versions, writes, key, epoch));
    if before_commit.buffered().dom().contains(key) {
        let op = before_commit.buffered()[key];
        assert(writes[key].value == op_value(op));
        written_is_newest(versions, epoch, writes[key]);
    }
}

/// Committing does not change what is read in the epoch of the commit.
///
/// Left out are buffered rows that are not what their byte form is read as. Rows of the table's
/// column types always are, as [`typed_rows_survive`] says.
pub proof fn commit_keeps_reads<S: StateStore>(
    before_commit: StateTable<S>,
    after_commit: StateTable<S>,
    epoch: u64,
    pk: Seq<Option<Scalar>>,
    with_value_meta: bool,
    answer_before: Result<Option<Seq<Option<Scalar>>>, StorageError>,
    answer_after: Result<Option<Seq<Option<Scalar>>>, StorageError>,
)
    requires
        change_survives(before_commit, ordered_row(pk, before_commit.orders())),
        after_commit.buffered() == Map::<Seq<u8>, Op>::empty(),
        after_commit.orders() == before_commit.orders(),
        after_commit.table().same_table(before_commit.table()),
        rows_written(
            before_commit.table(),
            after_commit.table(),
            before_commit.buffered(),
            epoch,
            with_value_meta,
        ),
        before_commit.reads(pk, epoch, answer_before),
        after_commit.reads(pk, epoch, answer_after),
    ensures
        ({
            let key = ordered_row(pk, before_commit.orders());
            after_commit.row_at(key, epoch) == before_commit.row_at(key, epoch)
        }),
        answer_before == answer_after || store_failed::<S>(answer_before) || store_failed::<S>(
            answer_after,
        ),
{
    commit_keeps_rows_that_survive(
        before_commit,
        after_commit,
        epoch,
        ordered_row(pk, before_commit.orders()),
        with_value_meta,
    );
}

/// A commit is not seen in older epochs.
pub proof fn commit_leaves_older_epochs<S: StateStore>(
    before_commit: StateTable<S>,
    after_commit: StateTable<S>,
    epoch: u64,
    older: u64,
    key: Seq<u8>,
    with_value_meta: bool,
)
    requires
        older < epoch,
        after_commit.table().same_table(before_commit.table()),
        rows_written(
            before_commit.table(),
            after_commit.table(),
            before_commit.buffered(),
            epoch,
            with_value_meta,
        ),
    ensures
        after_commit.table().stored(key, older) == before_commit.table().stored(key, older),
{
    let writes = row_writes(before_commit.buffered(), with_value_meta);
    let versions = before_commit.table().versions_of(key);
    assert(after_commit.table().versions_of(key) == versions_after(versions, writes, key, epoch));
    if writes.dom().contains(key) {
        older_epochs_do_not_see(versions, epoch, writes[key], older);
    }
}

/// After a commit that wrote nothing, the buffered changes are lost: what is read is what was
/// in the store before.
pub proof fn failed_commit_drops_changes<S: StateStore>(
    before_commit: StateTable<S>,
    after_commit: StateTable<S>,
    key: Seq<u8>,
    epoch: u64,
)
    requires
        after_commit.buffered() == Map::<Seq<u8>, Op>::empty(),
        after_commit.table().same_table(before_commit.table()),
        nothing_written(before_commit.table(), after_commit.table()),
    ensures
        after_commit.row_at(key, epoch) == before_commit.table().stored(key, epoch),
{
}

/// With no change left, the rows of the store come out as they are.
pub proof fn rows_pass_without_changes(key: Seq<u8>, row: Seq<Option<Scalar>>)
    ensures
        merged(Some((key, row)), None) == (false, Some(row)),
{
}

/// A change comes out in place of the stored row with the same key.
pub proof fn change_hides_stored_row(key: Seq<u8>, row: Seq<Option<Scalar>>, op: Op)
    ensures
        merged(Some((key, row)), Some((key, op))) == (true, op.row_after()),
{
}

/// `states` are what an iterator goes through, and `rows` is what it hands out on the way.
pub open spec fn iterated<S: StateStore>(
    states: Seq<StateTableRowIter<S>>,
    rows: Seq<Option<Seq<Option<Scalar>>>>,
) -> bool {
    &&& states.len() == rows.len() + 1
    &&& forall|k: int|
        #![trigger rows[k]]
        0 <= k < rows.len() && states[k].remaining().len() > 0 ==> {
            let pair = states[k].remaining()[0];
            let stored = (pair.0@, (decode_row(pair.1@, states[k].types())->Ok_0).0);
            &&& rows[k] == merged(Some(stored), states[k].changes().next_change()).1
            &&& states[k + 1].remaining() == states[k].remaining().drop_first()
            &&& states[k + 1].types() == states[k].types()
            &&& states[k].changes().next_change() is None ==> states[k
                + 1].changes().next_change() is None
        }
}

/// With nothing buffered, an iterator hands out every stored row once, in the order of the
/// keys.
pub proof fn iteration_without_changes<S: StateStore>(
    states: Seq<StateTableRowIter<S>>,
    rows: Seq<Option<Seq<Option<Scalar>>>>,
    k: int,
)
    requires
        iterated(states, rows),
        states[0].changes().next_change() is None,
        0 <= k < rows.len(),
        k < states[0].remaining().len(),
    ensures
        rows[k] == Some(
            (decode_row(states[0].remaining()[k].1@, states[0].types())->Ok_0).0,
        ),
        states[k + 1].remaining() == states[0].remaining().skip(k + 1),
        states[k + 1].types() == states[0].types(),
        states[k + 1].changes().next_change() is None,
    decreases k,
{
    let all = states[0].remaining();
    if k > 0 {
        iteration_without_changes(states, rows, k - 1);
        assert(rows[k - 1] is Some);
    } else {
        assert(all.skip(0) =~= all);
    }
    assert(states[k].remaining() == all.skip(k));
    assert(states[k].remaining()[0] == all[k]);
    assert(all.skip(k).drop_first() =~= all.skip(k + 1));
}

/// What a step of the merge hands out, whatever the store and the buffer hold.
///
/// The buffered change is used up unless a stored row comes before it, or there is none. A change
/// that is used up hands out the row that it leaves: the inserted row, the new row of an update,
/// or nothing for a deletion. Where no change is used up, the stored row comes out.
pub proof fn step_hands_out_change_or_stored_row(
    stored: Option<(Seq<u8>, Seq<Option<Scalar>>)>,
    change: Option<(Seq<u8>, Op)>,
)
    ensures
        merged(stored, change).0 <==> (change matches Some((change_key, _)) && !(
        stored matches Some((key, _)) && before(key, change_key))),
        merged(stored, change).0 ==> match (change->0).1 {
            Op::Insert(row) => merged(stored, change).1 == Some(row),
            Op::Delete(_) => merged(stored, change).1 is None,
            Op::Update(_, new_row) => merged(stored, change).1 == Some(new_row),
        },
        !merged(stored, change).0 ==> match stored {
            Some((_, row)) => merged(stored, change).1 == Some(row),
            None => merged(stored, change).1 is None,
        },
{
    if let (Some((key, _)), Some((change_key, _))) = (stored, change) {
        before_irreflexive(key);
    }
}

/// A change that is used up hands out what reading its row gives, in any epoch.
pub proof fn iterating_and_reading_agree<S: StateStore>(
    table: StateTable<S>,
    key: Seq<u8>,
    stored: Option<(Seq<u8>, Seq<Option<Scalar>>)>,
    epoch: u64,
)
    requires
        op_at(table.buffered(), key) is Some,
    ensures
        ({
            let change = (table.table().prefix() + key, op_at(table.buffered(), key)->0);
            merged(stored, Some(change)).0 ==> table.row_at(key, epoch) == found(
                merged(stored, Some(change)).1,
            )
        }),
{
}

/// The next change of a merge is the first item that was not used up, under the key of its row in
/// the table.
pub proof fn next_change_is_next_item(merger: RowMerger)
    requires
        merger.wf(),
    ensures
        merger.place() == merger.items().len() ==> merger.next_change() is None,
        merger.place() < merger.items().len() ==> (merger.next_change() matches Some((key, op))
            && op == merger.items()[merger.place() as int].1@ && key == merger.prefix_view()
            + ordered_row(merger.items()[merger.place() as int].0@, merger.orders())),
{
}

/// With no stored row left, the buffered changes come out one after the other, each with the row
/// that it leaves. `states` are what a merge goes through, and `rows` is what it hands out.
pub proof fn changes_come_out_in_order(
    states: Seq<RowMerger>,
    rows: Seq<Option<Seq<Option<Scalar>>>>,
    k: int,
)
    requires
        states.len() == rows.len() + 1,
        0 <= k < rows.len(),
        states[0].place() + rows.len() <= states[0].items().len(),
        forall|i: int|
            #![trigger rows[i]]
            0 <= i < rows.len() ==> {
                let (used, out) = merged(None, states[i].next_change());
                &&& rows[i] == out
                &&& states[i + 1].same_changes(states[i])
                &&& states[i + 1].place() == states[i].place() + (if used {
                    1int
                } else {
                    0
                })
            },
    ensures
        states[k + 1].items() == states[0].items(),
        states[k + 1].place() == states[0].place() + k + 1,
        match states[0].items()[states[0].place() + k].1@ {
            Op::Insert(row) => rows[k] == Some(row),
            Op::Delete(_) => rows[k] is None,
            Op::Update(_, new_row) => rows[k] == Some(new_row),
        },
    decreases k,
{
    if k > 0 {
        changes_come_out_in_order(states, rows, k - 1);
    }
    assert(rows[k] == merged(None, states[k].next_change()).1);
    step_hands_out_change_or_stored_row(None, states[k].next_change());
}

/// An insert is refused exactly where the buffer has a row for the primary key already, and a
/// delete exactly where the buffer has deleted it already. What comes of them is a row with the
/// new value, or no row; the row that was there before all changes is kept.
pub proof fn changes_follow_one_another(op: Option<Op>, row: Seq<Option<Scalar>>)
    ensures
        inserted(op, row) is Err <==> (op matches Some(Op::Insert(_)) || op matches Some(
            Op::Update(_, _),
        )),
        inserted(op, row) matches Err(e) ==> e == StateTableError::DoubleInsert,
        deleted(op, row) is Err <==> op matches Some(Op::Delete(_)),
        deleted(op, row) matches Err(e) ==> e == StateTableError::DoubleDelete,
        inserted(op, row) matches Ok(next) ==> match op {
            None => next == Op::Insert(row),
            Some(Op::Delete(old_row)) => next == Op::Update(old_row, row),
            _ => false,
        },
        deleted(op, row) matches Ok(next) ==> match op {
            None => next == Some(Op::Delete(row)),
            Some(Op::Insert(_)) => next is None,
            Some(Op::Update(old_row, _)) => next == Some(Op::Delete(old_row)),
            _ => false,
        },
{
}

/// A commit leaves the rows of primary keys for which nothing was buffered, in every epoch, and
/// everything outside the table.
pub proof fn commit_leaves_other_rows<S: StateStore>(
    before_commit: StateTable<S>,
    after_commit: StateTable<S>,
    epoch: u64,
    key: Seq<u8>,
    other_key: Seq<u8>,
    with_value_meta: bool,
)
    requires
        after_commit.table().same_table(before_commit.table()),
        rows_written(
            before_commit.table(),
            after_commit.table(),
            before_commit.buffered(),
            epoch,
            with_value_meta,
        ),
        !before_commit.buffered().dom().contains(key),
        !before_commit.table().prefix().is_prefix_of(other_key),
    ensures
        forall|e: u64| #[trigger]
            after_commit.table().stored(key, e) == before_commit.table().stored(key, e),
        after_commit.table().store().versions(other_key)
            == before_commit.table().store().versions(other_key),
{
    let writes = row_writes(before_commit.buffered(), with_value_meta);
    assert(after_commit.table().versions_of(key) == versions_after(
        before_commit.table().versions_of(key),
        writes,
        key,
        epoch,
    ));
}

/// A row for which nothing is buffered is read from the store: the newest version of its key up to
/// the epoch, decoded. Where the store fails, its error comes instead.
pub proof fn unbuffered_rows_come_from_the_store<S: StateStore>(
    table: StateTable<S>,
    pk: Seq<Option<Scalar>>,
    epoch: u64,
    answer: Result<Option<Seq<Option<Scalar>>>, StorageError>,
)
    requires
        table.reads(pk, epoch, answer),
        !table.buffered().dom().contains(ordered_row(pk, table.orders())),
        forall|e: StorageError| !S::get_fails_with(e),
    ensures
        ({
            let key = table.table().prefix() + ordered_row(pk, table.orders());
            match newest(table.table().store().versions(key), epoch) {
                None => answer == Ok::<_, StorageError>(None::<Seq<Option<Scalar>>>),
                Some(bytes) => match decode_row(bytes, table.table().types()) {
                    Ok((row, _)) => answer == Ok::<_, StorageError>(Some(row)),
                    Err(e) => answer == Err::<Option<Seq<Option<Scalar>>>, StorageError>(
                        StorageError::CellBasedTable(e),
                    ),
                },
            }
        }),
{
}

/// A row for which something is buffered is read from the buffer, whatever the store does.
pub proof fn buffered_rows_come_from_the_buffer<S: StateStore>(
    table: StateTable<S>,
    pk: Seq<Option<Scalar>>,
    epoch: u64,
    answer: Result<Option<Seq<Option<Scalar>>>, StorageError>,
)
    requires
        table.reads(pk, epoch, answer),
        table.buffered().dom().contains(ordered_row(pk, table.orders())),
    ensures
        match table.buffered()[ordered_row(pk, table.orders())] {
            Op::Insert(row) => answer == Ok::<_, StorageError>(Some(row)),
            Op::Delete(_) => answer == Ok::<_, StorageError>(None::<Seq<Option<Scalar>>>),
            Op::Update(_, new_row) => answer == Ok::<_, StorageError>(Some(new_row)),
        },
{
}

/// What a commit writes for a buffered change: the byte form of the row that the change leaves, or
/// a deletion, with the group of the row or with zero beside it.
pub proof fn commit_writes_the_new_rows<S: StateStore>(
    before_commit: StateTable<S>,
    after_commit: StateTable<S>,
    epoch: u64,
    key: Seq<u8>,
    with_value_meta: bool,
)
    requires
        after_commit.table().same_table(before_commit.table()),
        rows_written(
            before_commit.table(),
            after_commit.table(),
            before_commit.buffered(),
            epoch,
            with_value_meta,
        ),
        before_commit.buffered().dom().contains(key),
    ensures
        ({
            let whole_key = before_commit.table().prefix() + key;
            let versions = after_commit.table().store().versions(whole_key);
            &&& versions.dom().contains(epoch)
            &&& match before_commit.buffered()[key] {
                Op::Insert(row) => versions[epoch].value == Some(row_bytes(row)),
                Op::Delete(_) => versions[epoch].value is None,
                Op::Update(_, new_row) => versions[epoch].value == Some(row_bytes(new_row)),
            }
            &&& versions[epoch].value_meta as int == (if with_value_meta {
                xxhash64(key) as int % 2048
            } else {
                0
            })
            &&& versions[epoch].origin == Origin::Ingested(0x2333abcd)
        }),
{
    let writes = row_writes(before_commit.buffered(), with_value_meta);
    let versions = before_commit.table().versions_of(key);
    assert(after_commit.table().versions_of(key) == versions_after(versions, writes, key, epoch));
}

/// An iterator over the rows of a table reads each row that can be read in the epoch, in the order
/// of the keys, and nothing else.
pub proof fn iterators_read_every_row<S: StateStore>(
    table: StateTable<S>,
    epoch: u64,
    items: Seq<(Seq<u8>, Seq<u8>)>,
    key: Seq<u8>,
)
    requires
        rows_of_table(table.table(), epoch, items),
    ensures
        forall|i: int, j: int|
            #![trigger items[i], items[j]]
            0 <= i < j < items.len() ==> before(items[i].0, items[j].0),
        forall|i: int|
            #![trigger items[i]]
            0 <= i < items.len() ==> table.table().prefix().is_prefix_of(items[i].0) && newest(
                table.table().store().versions(items[i].0),
                epoch,
            ) == Some(items[i].1),
        newest(table.table().versions_of(key), epoch) is Some ==> exists|i: int|
            0 <= i < items.len() && (#[trigger] items[i]).0 == table.table().prefix() + key,
{
    let (prefix, whole) = (table.table().prefix(), table.table().prefix() + key);
    assert(whole.take(prefix.len() as int) =~= prefix);
    assert(visible(table.table().store(), whole, epoch) == newest(
        table.table().versions_of(key),
        epoch,
    ));
    assert forall|i: int| #![trigger items[i]] 0 <= i < items.len() implies newest(
        table.table().store().versions(items[i].0),
        epoch,
    ) == Some(items[i].1) by {
        assert(visible(table.table().store(), items[i].0, epoch) == Some(items[i].1));
    }
}

} // verus!
