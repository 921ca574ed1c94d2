use std::collections::BTreeMap;
use std::sync::Arc;

use streamkeys::byte_order::{compare, KeyOrder, OrderedMap};
use streamkeys::cell_based_table::{row_of_item, row_of_reply, row_pairs, ColumnDesc, ColumnId};
use streamkeys::decimal::Decimal;
use streamkeys::float::F64;
use streamkeys::hash_code::XxHash64Builder;
use streamkeys::keyspace::{range_of_prefix, Keyspace};
use streamkeys::mem_table::{BufferedRow, MemTable, Row, RowOp};
use streamkeys::memory::MemoryStateStore;
use streamkeys::ordered::{serialize_pk, OrderedRowSerializer};
use streamkeys::property::OrderType;
use streamkeys::scalar::{DataType, Datum, Int256, OwnedRow, ScalarImpl};
use streamkeys::state_table::{RowMerger, StateTable};
use streamkeys::store::{
    KeyBound, KeyRange, StateStore, StateStoreIter, StateTableError, StorageError, StorageResult,
    StorageValue, GLOBAL_STORAGE_TABLE_ID,
};
use streamkeys::value_encoding::ValueEncodingError;

fn row(values: &[Option<i32>]) -> Row {
    OwnedRow::new(values.iter().map(|v| v.map(ScalarImpl::Int32)).collect())
}

fn columns(ids: &[i32]) -> Vec<ColumnDesc> {
    ids.iter().map(|id| ColumnDesc::unnamed(ColumnId::from(*id), DataType::Int32)).collect()
}

fn new_table(ids: &[i32]) -> StateTable<MemoryStateStore> {
    let state_store = MemoryStateStore::new();
    let keyspace = Keyspace::executor_root(state_store, 0x42);
    StateTable::new(keyspace, columns(ids), vec![OrderType::Ascending])
}

#[test]
fn test_state_table() -> StorageResult<()> {
    let mut state_table = new_table(&[0, 1, 2]);
    let mut epoch: u64 = 0;
    state_table
        .insert(row(&[Some(1)]), row(&[Some(1), Some(11), Some(111)]))
        .unwrap();
    state_table
        .insert(row(&[Some(2)]), row(&[Some(2), Some(22), Some(222)]))
        .unwrap();
    state_table
        .insert(row(&[Some(3)]), row(&[Some(3), Some(33), Some(333)]))
        .unwrap();

    // test read visibility
    let row1 = state_table.get_row(&row(&[Some(1)]), epoch).unwrap();
    assert_eq!(row1, Some(row(&[Some(1), Some(11), Some(111)])));

    let row2 = state_table.get_row(&row(&[Some(2)]), epoch).unwrap();
    assert_eq!(row2, Some(row(&[Some(2), Some(22), Some(222)])));

    state_table
        .delete(row(&[Some(2)]), row(&[Some(2), Some(22), Some(222)]))
        .unwrap();

    let row2_delete = state_table.get_row(&row(&[Some(2)]), epoch).unwrap();
    assert_eq!(row2_delete, None);

    state_table.commit(epoch).unwrap();

    let row2_delete_commit = state_table.get_row(&row(&[Some(2)]), epoch).unwrap();
    assert_eq!(row2_delete_commit, None);

    epoch += 1;
    state_table
        .delete(row(&[Some(3)]), row(&[Some(3), Some(33), Some(333)]))
        .unwrap();

    state_table.insert(row(&[Some(4)]), row(&[Some(4), None, None])).unwrap();
    state_table.insert(row(&[Some(5)]), row(&[None, None, None])).unwrap();

    let row4 = state_table.get_row(&row(&[Some(4)]), epoch).unwrap();
    assert_eq!(row4, Some(row(&[Some(4), None, None])));

    let row5 = state_table.get_row(&row(&[Some(5)]), epoch).unwrap();
    assert_eq!(row5, Some(row(&[None, None, None])));

    let non_exist_row = state_table.get_row(&row(&[Some(0)]), epoch).unwrap();
    assert_eq!(non_exist_row, None);

    state_table.delete(row(&[Some(4)]), row(&[Some(4), None, None])).unwrap();

    state_table.commit(epoch).unwrap();

    let row3_delete = state_table.get_row(&row(&[Some(3)]), epoch).unwrap();
    assert_eq!(row3_delete, None);

    let row4_delete = state_table.get_row(&row(&[Some(4)]), epoch).unwrap();
    assert_eq!(row4_delete, None);

    Ok(())
}

#[test]
fn test_state_table_update_insert() -> StorageResult<()> {
    let mut state_table = new_table(&[0, 1, 2, 4]);
    let mut epoch: u64 = 0;
    state_table
        .insert(row(&[Some(6)]), row(&[Some(6), Some(66), Some(666), Some(6666)]))
        .unwrap();
    state_table
        .insert(row(&[Some(7)]), row(&[Some(7), None, Some(777), None]))
        .unwrap();
    state_table.commit(epoch).unwrap();

    epoch += 1;
    state_table
        .delete(row(&[Some(6)]), row(&[Some(6), Some(66), Some(666), Some(6666)]))
        .unwrap();
    state_table
        .insert(row(&[Some(6)]), row(&[Some(6666), None, None, Some(6666)]))
        .unwrap();

    state_table
        .delete(row(&[Some(7)]), row(&[Some(7), None, Some(777), None]))
        .unwrap();
    state_table
        .insert(row(&[Some(7)]), row(&[None, Some(77), Some(7777), None]))
        .unwrap();
    let row6 = state_table.get_row(&row(&[Some(6)]), epoch).unwrap();
    assert_eq!(row6, Some(row(&[Some(6666), None, None, Some(6666)])));

    let row7 = state_table.get_row(&row(&[Some(7)]), epoch).unwrap();
    assert_eq!(row7, Some(row(&[None, Some(77), Some(7777), None])));

    state_table.commit(epoch).unwrap();

    let row6_commit = state_table.get_row(&row(&[Some(6)]), epoch).unwrap();
    assert_eq!(row6_commit, Some(row(&[Some(6666), None, None, Some(6666)])));
    let row7_commit = state_table.get_row(&row(&[Some(7)]), epoch).unwrap();
    assert_eq!(row7_commit, Some(row(&[None, Some(77), Some(7777), None])));

    epoch += 1;

    state_table
        .insert(row(&[Some(1)]), row(&[Some(1), Some(2), Some(3), Some(4)]))
        .unwrap();
    state_table.commit(epoch).unwrap();
    // one epoch: delete (1, 2, 3, 4), insert (5, 6, 7, None), delete(5, 6, 7, None)
    state_table
        .delete(row(&[Some(1)]), row(&[Some(1), Some(2), Some(3), Some(4)]))
        .unwrap();
    state_table
        .insert(row(&[Some(1)]), row(&[Some(5), Some(6), Some(7), None]))
        .unwrap();
    state_table
        .delete(row(&[Some(1)]), row(&[Some(5), Some(6), Some(7), None]))
        .unwrap();

    let row1 = state_table.get_row(&row(&[Some(1)]), epoch).unwrap();
    assert_eq!(row1, None);
    state_table.commit(epoch).unwrap();

    let row1_commit = state_table.get_row(&row(&[Some(1)]), epoch).unwrap();
    assert_eq!(row1_commit, None);
    Ok(())
}

#[test]
fn changes_that_do_not_fit_are_refused() {
    let mut table = new_table(&[0]);
    table.insert(row(&[Some(1)]), row(&[Some(10)])).unwrap();
    assert_eq!(
        table.insert(row(&[Some(1)]), row(&[Some(11)])),
        Err(StorageError::StateTable(StateTableError::DoubleInsert))
    );
    table.delete(row(&[Some(2)]), row(&[Some(20)])).unwrap();
    assert_eq!(
        table.delete(row(&[Some(2)]), row(&[Some(20)])),
        Err(StorageError::StateTable(StateTableError::DoubleDelete))
    );
    assert_eq!(table.get_row(&row(&[Some(1)]), 0), Ok(Some(row(&[Some(10)]))));
}

#[test]
fn buffer_lookup() {
    let mut table = MemTable::new(OrderedRowSerializer::new(vec![OrderType::Ascending]));
    table.insert(row(&[Some(1)]), row(&[Some(10)])).unwrap();
    table.delete(row(&[Some(2)]), row(&[Some(20)])).unwrap();
    assert!(matches!(table.lookup(&row(&[Some(1)])), BufferedRow::Known(Some(_))));
    assert!(matches!(table.lookup(&row(&[Some(2)])), BufferedRow::Known(None)));
    match table.lookup(&row(&[Some(3)])) {
        BufferedRow::AskStore(key) => assert_eq!(key, vec![3, 0x80, 0, 0, 3]),
        other => panic!("{other:?}"),
    }
}

#[test]
fn older_epochs_keep_their_rows() {
    let mut table = new_table(&[0]);
    table.insert(row(&[Some(1)]), row(&[Some(10)])).unwrap();
    table.commit(5).unwrap();
    table.delete(row(&[Some(1)]), row(&[Some(10)])).unwrap();
    table.commit_with_value_meta(7).unwrap();
    assert_eq!(table.get_row(&row(&[Some(1)]), 4), Ok(None));
    assert_eq!(table.get_row(&row(&[Some(1)]), 5), Ok(Some(row(&[Some(10)]))));
    assert_eq!(table.get_row(&row(&[Some(1)]), 6), Ok(Some(row(&[Some(10)]))));
    assert_eq!(table.get_row(&row(&[Some(1)]), 7), Ok(None));
}

#[test]
fn iterator_merges_in_key_order() {
    let mut table = new_table(&[0]);
    for i in [-3, 1, 4] {
        table.insert(row(&[Some(i)]), row(&[Some(i * 10)])).unwrap();
    }
    table.commit(1).unwrap();
    // With nothing buffered, the stored rows come out in the order of their keys.
    let mut iter = table.iter(1).unwrap();
    assert!(iter.mem_table_current_item().is_none());
    for i in [-3, 1, 4] {
        assert_eq!(iter.next(), Ok(Some(row(&[Some(i * 10)]))));
    }
    assert_eq!(iter.next(), Ok(None));

    // A change takes the place of the stored row with the same key.
    table.delete(row(&[Some(1)]), row(&[Some(10)])).unwrap();
    table.insert(row(&[Some(1)]), row(&[Some(11)])).unwrap();
    table.insert(row(&[Some(9)]), row(&[Some(90)])).unwrap();
    let mut iter = table.iter(1).unwrap();
    assert!(iter.mem_table_current_item().is_some());
    assert_eq!(iter.next(), Ok(Some(row(&[Some(-30)]))));
    assert_eq!(iter.next(), Ok(Some(row(&[Some(11)]))));
    assert_eq!(iter.next(), Ok(Some(row(&[Some(40)]))));
    assert_eq!(iter.next(), Ok(Some(row(&[Some(90)]))));
    assert_eq!(iter.next(), Ok(None));
}

#[test]
fn merging_step_by_step() {
    let mut table = MemTable::new(OrderedRowSerializer::new(vec![OrderType::Ascending]));
    table.insert(row(&[Some(1)]), row(&[Some(10)])).unwrap();
    table.delete(row(&[Some(2)]), row(&[Some(20)])).unwrap();
    let key = |i: i32| {
        let mut key = vec![9, 3];
        key.extend((i as u32 ^ 0x8000_0000).to_be_bytes());
        key
    };
    let mut merger =
        RowMerger::new(Arc::new(table.to_items()), vec![OrderType::Ascending], vec![9]);
    // A stored row in front of the change comes out.
    assert_eq!(merger.step(Some((key(0), row(&[Some(0)])))), Ok(Some(row(&[Some(0)]))));
    // Behind the change, the change comes out in its place.
    assert_eq!(merger.step(Some((key(7), row(&[Some(70)])))), Ok(Some(row(&[Some(10)]))));
    assert_eq!(merger.step(Some((key(2), row(&[Some(20)])))), Ok(None));
    assert!(merger.mem_table_current_item().is_none());
    assert_eq!(merger.step(Some((key(8), row(&[Some(80)])))), Ok(Some(row(&[Some(80)]))));
    assert_eq!(merger.step(None), Ok(None));
}

#[test]
fn replies_of_the_store() {
    let types = [DataType::Int32];
    assert_eq!(row_of_reply(&types, None), Ok(None));
    assert_eq!(row_of_reply(&types, Some(vec![1, 5, 0, 0, 0])), Ok(Some(row(&[Some(5)]))));
    assert_eq!(
        row_of_reply(&types, Some(vec![1, 5])),
        Err(StorageError::CellBasedTable(ValueEncodingError::UnexpectedEnd))
    );
    assert_eq!(row_of_item(&types, None), Ok(None));
    assert_eq!(
        row_of_item(&types, Some((vec![7], vec![0]))),
        Ok(Some((vec![7], row(&[None]))))
    );
    assert_eq!(
        row_of_item(&types, Some((vec![7], vec![3]))),
        Err(StorageError::CellBasedTable(ValueEncodingError::InvalidTag(3)))
    );
}

#[test]
fn batches_carry_the_group_of_each_row() {
    let parts = || {
        vec![
            (vec![1], (row(&[Some(1)]), RowOp::Insert(row(&[Some(10)])))),
            (vec![2], (row(&[Some(2)]), RowOp::Delete(row(&[Some(20)])))),
            (vec![3], (row(&[Some(3)]), RowOp::Update((row(&[None]), row(&[Some(30)]))))),
        ]
    };
    let plain = row_pairs(&[9], parts(), false);
    let keys: Vec<&[u8]> = plain.iter().map(|p| &p.0[..]).collect();
    assert_eq!(keys, vec![&[9, 1][..], &[9, 2], &[9, 3]]);
    let values: Vec<Option<Vec<u8>>> = plain.iter().map(|p| p.1.user_value.clone()).collect();
    assert_eq!(values, vec![Some(vec![1, 10, 0, 0, 0]), None, Some(vec![1, 30, 0, 0, 0])]);
    assert!(plain.iter().all(|p| p.1.value_meta == 0));
    let marked = row_pairs(&[9], parts(), true);
    for (i, pair) in marked.iter().enumerate() {
        let code = XxHash64Builder.hash_bytes(&[i as u8 + 1]).value();
        assert_eq!(pair.1.value_meta as u64, code % 2048);
        assert_eq!(pair.1.user_value, values[i]);
    }
}

#[test]
fn memory_store_scans() {
    let mut store = MemoryStateStore::new();
    let put = |v: u8| StorageValue::new_default_put(vec![v]);
    let mut batch = store.start_write_batch(GLOBAL_STORAGE_TABLE_ID);
    for k in [3u8, 1, 2, 4] {
        batch.put(vec![k], put(k));
    }
    batch.ingest(1).unwrap();
    store.replicate_batch(vec![(vec![2], StorageValue::new_default_delete())], 2).unwrap();
    let all = KeyRange { start: KeyBound::Unbounded, end: KeyBound::Unbounded };
    let keys = |items: Vec<(Vec<u8>, Vec<u8>)>| items.into_iter().map(|i| i.0[0]).collect::<Vec<u8>>();
    assert_eq!(keys(store.scan(&all, None, 1).unwrap()), vec![1, 2, 3, 4]);
    assert_eq!(keys(store.scan(&all, None, 2).unwrap()), vec![1, 3, 4]);
    assert_eq!(keys(store.scan(&all, Some(2), 2).unwrap()), vec![1, 3]);
    assert_eq!(keys(store.scan(&all, Some(0), 2).unwrap()), Vec::<u8>::new());
    assert_eq!(keys(store.reverse_scan(&all, Some(2), 2).unwrap()), vec![4, 3]);
    assert_eq!(keys(store.scan(&all, None, 0).unwrap()), Vec::<u8>::new());
    let some = KeyRange { start: KeyBound::Excluded(vec![1]), end: KeyBound::Included(vec![3]) };
    assert_eq!(keys(store.scan(&some, None, 1).unwrap()), vec![2, 3]);
    let some = KeyRange { start: KeyBound::Included(vec![1]), end: KeyBound::Excluded(vec![3]) };
    let mut iter = store.iter(&some, 1).unwrap();
    assert_eq!(iter.next(), Ok(Some((vec![1], vec![1]))));
    assert_eq!(iter.next(), Ok(Some((vec![2], vec![2]))));
    assert_eq!(iter.next(), Ok(None));
    let mut iter = store.reverse_iter(&some, 1).unwrap();
    assert_eq!(iter.next(), Ok(Some((vec![2], vec![2]))));
    assert!(store.wait_epoch(BTreeMap::from([(1, 1)])).is_ok());
    assert!(store.sync(None, None).is_ok());
}

#[test]
fn a_later_write_in_an_epoch_wins() {
    let mut store = MemoryStateStore::new();
    for v in [1u8, 2] {
        store
            .ingest_batch(vec![(vec![7], StorageValue::new_put(9, vec![v]))], 3, 0)
            .unwrap();
    }
    store.ingest_batch(vec![(vec![7], StorageValue::new_put(9, vec![0]))], 2, 0).unwrap();
    assert_eq!(store.get(&[7], 3), Ok(Some(vec![2])));
    assert_eq!(store.get(&[7], 2), Ok(Some(vec![0])));
    assert_eq!(store.get(&[7], 1), Ok(None));
    assert_eq!(store.get(&[8], 3), Ok(None));
}

fn key_of(datums: Vec<Datum>, orders: Vec<OrderType>) -> Vec<u8> {
    serialize_pk(&OwnedRow::new(datums), &OrderedRowSerializer::new(orders))
}

#[test]
fn keys_come_in_the_order_of_rows() {
    let ascending: Vec<Vec<Datum>> = vec![
        vec![None],
        vec![Some(ScalarImpl::Int32(i32::MIN))],
        vec![Some(ScalarImpl::Int32(-1))],
        vec![Some(ScalarImpl::Int32(0))],
        vec![Some(ScalarImpl::Int32(256))],
    ];
    let texts: Vec<Vec<Datum>> = ["", "\0", "\0\0", "a", "a\0", "aa", "b"]
        .iter()
        .map(|t| vec![Some(ScalarImpl::Utf8(t.to_string()))])
        .collect();
    let decimal = |negative, mantissa, scale| {
        vec![Some(ScalarImpl::Decimal(Decimal::try_new(negative, mantissa, scale).unwrap()))]
    };
    let largest: u128 = 0xffff_ffff_ffff_ffff_ffff_ffff;
    let decimals: Vec<Vec<Datum>> = vec![
        vec![Some(ScalarImpl::Decimal(Decimal::NegativeInf))],
        decimal(true, largest, 0),
        decimal(true, 12, 1),
        decimal(true, 119, 2),
        decimal(true, 1, 28),
        decimal(false, 0, 3),
        decimal(false, 1, 28),
        decimal(false, 119, 2),
        decimal(false, 12, 1),
        decimal(false, 2, 0),
        decimal(false, largest, 0),
        vec![Some(ScalarImpl::Decimal(Decimal::PositiveInf))],
        vec![Some(ScalarImpl::Decimal(Decimal::NaN))],
    ];
    let wide = |low: u8, high: u8| {
        let mut bytes = [0u8; 32];
        (bytes[0], bytes[31]) = (low, high);
        vec![Some(ScalarImpl::Int256(Int256 { bytes }))]
    };
    let integers: Vec<Vec<Datum>> =
        vec![wide(0, 0x80), wide(1, 0x80), wide(0, 0xff), wide(0, 0), wide(7, 0), wide(0, 0x7f)];
    let list = |items: &[Option<i32>]| vec![Some(ScalarImpl::List(row(items).datums))];
    let lists: Vec<Vec<Datum>> = vec![
        vec![None],
        list(&[]),
        list(&[None]),
        list(&[None, Some(-5)]),
        list(&[Some(-1)]),
        list(&[Some(-1), Some(3)]),
        list(&[Some(2)]),
    ];
    for rows in [ascending, texts, decimals, integers, lists] {
        for pair in rows.windows(2) {
            let up = |row: &Vec<Datum>| key_of(row.clone(), vec![OrderType::Ascending]);
            let down = |row: &Vec<Datum>| key_of(row.clone(), vec![OrderType::Descending]);
            assert_eq!(compare(&up(&pair[0]), &up(&pair[1])), KeyOrder::Less);
            assert_eq!(compare(&down(&pair[0]), &down(&pair[1])), KeyOrder::Greater);
            assert_eq!(compare(&up(&pair[0]), &up(&pair[0])), KeyOrder::Equal);
        }
    }
    let two = |a: i32, b: i32| {
        key_of(
            vec![Some(ScalarImpl::Int32(a)), Some(ScalarImpl::Int32(b))],
            vec![OrderType::Ascending, OrderType::Descending],
        )
    };
    assert!(two(1, 5) < two(1, 4));
    assert!(two(1, 4) < two(2, 9));
}

#[test]
fn prefixes_are_ranges() {
    let range = range_of_prefix(&[1, 255]);
    for (key, within) in [
        (vec![1, 255], true),
        (vec![1, 255, 0], true),
        (vec![1, 255, 255, 255], true),
        (vec![1, 254, 255], false),
        (vec![2], false),
        (vec![1], false),
    ] {
        assert_eq!(range.contains(&key), within);
    }
    assert!(range_of_prefix(&[255, 255]).contains(&[255, 255, 3]));
    assert!(!range_of_prefix(&[255, 255]).contains(&[255, 254]));
}

#[test]
fn ordered_map() {
    let mut map: OrderedMap<u8> = OrderedMap::new();
    map.insert(vec![2], 20);
    map.insert(vec![1], 10);
    map.insert(vec![3], 30);
    map.insert(vec![2], 21);
    assert_eq!(map.get(&[2]), Some(&21));
    assert_eq!(map.get(&[4]), None);
    assert_eq!(map.remove(&[1]), Some(10));
    assert_eq!(map.remove(&[1]), None);
    assert_eq!(map.len(), 2);
    assert_eq!((map.key_at(0), map.value_at(0)), (&vec![2], &21));
    assert_eq!(map.into_entries(), vec![(vec![2], 21), (vec![3], 30)]);
}

#[test]
fn mem_table_merges_changes() {
    let serializer = OrderedRowSerializer::new(vec![OrderType::Descending]);
    let mut table = MemTable::new(serializer);
    table.insert(row(&[Some(1)]), row(&[Some(10)])).unwrap();
    table.delete(row(&[Some(2)]), row(&[Some(20)])).unwrap();
    table.insert(row(&[Some(2)]), row(&[Some(21)])).unwrap();
    table.insert(row(&[Some(3)]), row(&[Some(30)])).unwrap();
    table.delete(row(&[Some(3)]), row(&[Some(30)])).unwrap();
    match table.get_row(&row(&[Some(2)])) {
        Some(RowOp::Update((old_row, new_row))) => {
            assert_eq!((old_row, new_row), (&row(&[Some(20)]), &row(&[Some(21)])))
        }
        other => panic!("{other:?}"),
    }
    assert!(table.get_row(&row(&[Some(3)])).is_none());
    let pks: Vec<Row> = table.to_items().into_iter().map(|item| item.0).collect();
    assert_eq!(pks, vec![row(&[Some(2)]), row(&[Some(1)])]);
    table.delete(row(&[Some(2)]), row(&[Some(21)])).unwrap();
    match table.get_row(&row(&[Some(2)])) {
        Some(RowOp::Delete(old_row)) => assert_eq!(old_row, &row(&[Some(20)])),
        other => panic!("{other:?}"),
    }
    assert_eq!(table.into_parts().len(), 2);
}

#[test]
fn equal_values_have_one_key() {
    let key = |s: ScalarImpl| key_of(vec![Some(s)], vec![OrderType::Ascending]);
    let decimal =
        |m, scale| ScalarImpl::Decimal(Decimal::try_new(false, m, scale).unwrap());
    assert_eq!(key(decimal(12, 1)), key(decimal(1200, 3)));
    assert_eq!(key(decimal(12, 1)).len(), 30);
    let zero = |bits| ScalarImpl::Struct(vec![Some(ScalarImpl::Float64(F64 { bits })), None]);
    assert_eq!(key(zero(0)), key(zero(1 << 63)));
    assert_eq!(key(ScalarImpl::List(vec![None])), vec![17, 1, 0, 0]);
}

#[test]
fn rows_of_any_type_are_keys() {
    let one = |s: ScalarImpl| OwnedRow::new(vec![Some(s)]);
    let decimal =
        |m, scale| one(ScalarImpl::Decimal(Decimal::try_new(false, m, scale).unwrap()));
    let mut table = new_table(&[0]);
    table.insert(decimal(12, 1), row(&[Some(1)])).unwrap();
    table.insert(one(ScalarImpl::Jsonb(b"{}".to_vec())), row(&[Some(2)])).unwrap();
    table.insert(one(ScalarImpl::Struct(vec![None])), row(&[Some(3)])).unwrap();
    for _ in 0..2 {
        assert_eq!(table.get_row(&decimal(120, 2), 1), Ok(Some(row(&[Some(1)]))));
        let document = one(ScalarImpl::Jsonb(b"{}".to_vec()));
        assert_eq!(table.get_row(&document, 1), Ok(Some(row(&[Some(2)]))));
        let parts = one(ScalarImpl::Struct(vec![None]));
        assert_eq!(table.get_row(&parts, 1), Ok(Some(row(&[Some(3)]))));
        assert_eq!(table.get_row(&decimal(13, 1), 1), Ok(None));
        table.commit(1).unwrap();
    }
}

#[test]
fn a_key_with_another_number_of_columns_has_no_row() {
    let mut table = new_table(&[0]);
    table.insert(row(&[Some(1)]), row(&[Some(10)])).unwrap();
    assert_eq!(table.get_row(&row(&[]), 0), Ok(None));
    assert_eq!(table.get_row(&row(&[Some(1), None]), 0), Ok(None));
    table.commit(0).unwrap();
    assert_eq!(table.get_row(&row(&[]), 0), Ok(None));
    assert_eq!(table.get_row(&row(&[Some(1), None]), 0), Ok(None));
    assert_eq!(table.get_row(&row(&[Some(1)]), 0), Ok(Some(row(&[Some(10)]))));
}

#[test]
fn rows_that_cannot_be_read_are_reported() {
    let mut store = MemoryStateStore::new();
    let key = |pk: u8| vec![101, 0, 0, 0, 0, 0, 0, 0, 0x42, 3, 0x80, 0, 0, pk];
    let mut batch = store.start_write_batch(GLOBAL_STORAGE_TABLE_ID);
    batch.put_all(vec![
        (key(1), StorageValue::new_default_put(vec![9])),
        (key(2), StorageValue::new_default_put(vec![1, 20, 0, 0, 0])),
    ]);
    batch.ingest(0).unwrap();
    let keyspace = Keyspace::executor_root(store, 0x42);
    let table = StateTable::new(keyspace, columns(&[0]), vec![OrderType::Ascending]);
    let refusal = StorageError::CellBasedTable(ValueEncodingError::InvalidTag(9));
    assert_eq!(table.get_row(&row(&[Some(1)]), 0), Err(refusal));
    assert_eq!(table.get_row(&row(&[Some(2)]), 0), Ok(Some(row(&[Some(20)]))));
    let mut iter = table.iter(0).unwrap();
    assert_eq!(iter.next(), Err(refusal));
    assert_eq!(iter.next(), Ok(Some(row(&[Some(20)]))));
    assert_eq!(iter.next(), Ok(None));
}

#[test]
fn keys_of_different_types_are_different_rows() {
    let one = |s: ScalarImpl| OwnedRow::new(vec![Some(s)]);
    let mut table = new_table(&[0]);
    table.insert(one(ScalarImpl::Int64(7)), row(&[Some(1)])).unwrap();
    table.insert(one(ScalarImpl::Int32(7)), row(&[Some(2)])).unwrap();
    table.insert(one(ScalarImpl::Bytea(b"a".to_vec())), row(&[Some(3)])).unwrap();
    table.insert(one(ScalarImpl::Utf8("a".to_string())), row(&[Some(4)])).unwrap();
    for _ in 0..2 {
        let read = |s: ScalarImpl| table.get_row(&one(s), 1).unwrap();
        assert_eq!(read(ScalarImpl::Int64(7)), Some(row(&[Some(1)])));
        assert_eq!(read(ScalarImpl::Int32(7)), Some(row(&[Some(2)])));
        assert_eq!(read(ScalarImpl::Bytea(b"a".to_vec())), Some(row(&[Some(3)])));
        assert_eq!(read(ScalarImpl::Utf8("a".to_string())), Some(row(&[Some(4)])));
        assert_eq!(read(ScalarImpl::Jsonb(b"a".to_vec())), None);
        table.commit(1).unwrap();
    }
}
